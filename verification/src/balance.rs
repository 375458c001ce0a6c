//! Well-formed nesting, and what the counting scans find in its presence.
//!
//! A flat sequence is balanced when its openers and terminators pair up like
//! brackets of two kinds. On a balanced sequence the counting scans of
//! [`crate::scope`] stop at the terminator that pairs with the opener they
//! started from, and scopes lie inside each other or apart.

use vstd::prelude::*;
use crate::statement::Statement;
use crate::scope::{
    choice_end, closes_dialogue, closes_scope, dialogue_depth, dialogue_end, is_dialogue_end,
    is_offered, is_scope_end, lemma_choice_end_is, lemma_dialogue_end_is, scope_depth,
};

verus! {

/// The kind of an open scope.
#[derive(Debug, Clone, Copy, PartialEq, Eq, Structural)]
pub enum ScopeKind {
    Dialogue,
    Choice,
}

/// The open scopes after one more statement, the innermost last. `None` if
/// the statement is a terminator and the innermost open scope is not of its
/// kind.
pub open spec fn scopes_after(open: Seq<ScopeKind>, statement: Statement) -> Option<
    Seq<ScopeKind>,
> {
    match statement {
        Statement::Dialogue { .. } => Some(open.push(ScopeKind::Dialogue)),
        Statement::Choice { .. } => Some(open.push(ScopeKind::Choice)),
        Statement::EndDialogue => if open.len() > 0 && open.last() is Dialogue {
            Some(open.drop_last())
        } else {
            None
        },
        Statement::EndChoice => if open.len() > 0 && open.last() is Choice {
            Some(open.drop_last())
        } else {
            None
        },
        _ => Some(open),
    }
}

/// The scopes that `s[..upto)` leaves open, the innermost last. `None` if
/// some terminator in it pairs with no opener of its kind.
pub open spec fn open_scopes(s: Seq<Statement>, upto: int) -> Option<Seq<ScopeKind>>
    decreases upto,
{
    if upto <= 0 {
        Some(Seq::empty())
    } else {
        match open_scopes(s, upto - 1) {
            Some(open) => scopes_after(open, s[upto - 1]),
            None => None,
        }
    }
}

/// Every opener has its terminator, every terminator its opener, and scopes
/// do not overlap.
pub open spec fn balanced(s: Seq<Statement>) -> bool {
    open_scopes(s, s.len() as int) == Some(Seq::<ScopeKind>::empty())
}

/// The number of scopes open before position `at`.
pub open spec fn level(s: Seq<Statement>, at: int) -> int {
    open_scopes(s, at).unwrap().len() as int
}

/// The terminator at `end` pairs with the opener at `open`: it brings the
/// open scopes back to what they were before the opener, and nothing before
/// it does.
pub open spec fn pairs_with(s: Seq<Statement>, open: int, end: int) -> bool {
    &&& 0 <= open < end < s.len()
    &&& open_scopes(s, open) is Some
    &&& open_scopes(s, end + 1) == open_scopes(s, open)
    &&& forall|k: int| open < k <= end ==> #[trigger] level(s, k) > level(s, open)
}

/// The dialogues among the scopes of `open` from the place `from` on.
pub open spec fn dialogues_above(open: Seq<ScopeKind>, from: int) -> int
    decreases open.len(),
{
    if open.len() <= from || open.len() == 0 {
        0
    } else {
        dialogues_above(open.drop_last(), from) + if open.last() is Dialogue {
            1int
        } else {
            0int
        }
    }
}

proof fn lemma_dialogues_above_bounds(open: Seq<ScopeKind>, from: int)
    ensures
        dialogues_above(open, from) >= 0,
    decreases open.len(),
{
    if !(open.len() <= from || open.len() == 0) {
        lemma_dialogues_above_bounds(open.drop_last(), from);
    }
}

proof fn lemma_dialogues_above_push(open: Seq<ScopeKind>, from: int, kind: ScopeKind)
    requires
        0 <= from <= open.len(),
    ensures
        dialogues_above(open.push(kind), from) == dialogues_above(open, from) + if kind
            is Dialogue {
            1int
        } else {
            0int
        },
{
    assert(open.push(kind).drop_last() =~= open);
}

/// What is well-formed up to a place is well-formed up to every earlier one.
pub proof fn lemma_prefix_open(s: Seq<Statement>, upto: int, at: int)
    requires
        open_scopes(s, upto) is Some,
        at <= upto,
    ensures
        open_scopes(s, at) is Some,
    decreases upto - at,
{
    if at < upto && upto > 0 {
        lemma_prefix_open(s, upto - 1, at);
    }
}

/// At `at`, behind the dialogue opener at `open`, the scope of the dialogue
/// is still open, and the dialogue-counting scan has counted the dialogues
/// that are open inside it.
spec fn counted(s: Seq<Statement>, open: int, at: int) -> bool {
    &&& open_scopes(s, at) is Some
    &&& level(s, at) > level(s, open)
    &&& open_scopes(s, at).unwrap().subrange(0, level(s, open) + 1) == open_scopes(
        s,
        open,
    ).unwrap().push(ScopeKind::Dialogue)
    &&& dialogue_depth(s, open + 1, at) == dialogues_above(
        open_scopes(s, at).unwrap(),
        level(s, open) + 1,
    )
}

proof fn lemma_dialogue_scan(s: Seq<Statement>, open: int, at: int) -> (end: int)
    requires
        balanced(s),
        0 <= open < at <= s.len(),
        s[open] is Dialogue,
        open_scopes(s, open) is Some,
        forall|k: int| open < k <= at ==> #[trigger] counted(s, open, k),
        forall|k: int| open < k < at ==> !closes_dialogue(s, open, k),
    ensures
        is_dialogue_end(s, open, end),
        pairs_with(s, open, end),
        s[end] is EndDialogue,
        forall|k: int| open < k <= end ==> #[trigger] counted(s, open, k),
    decreases s.len() - at,
{
    assert(counted(s, open, at));
    let base = open_scopes(s, open).unwrap();
    let here = open_scopes(s, at).unwrap();
    let floor = base.len() as int;
    if at == s.len() {
        assert(false);
        arbitrary()
    } else {
        lemma_prefix_open(s, s.len() as int, at + 1);
        let next = open_scopes(s, at + 1).unwrap();
        assert(Some(next) == scopes_after(here, s[at]));
        lemma_dialogues_above_bounds(here, floor + 1);
        if s[at].is_closer() && here.len() == floor + 1 {
            assert(here =~= here.subrange(0, floor + 1));
            assert(here.last() is Dialogue);
            assert(s[at] is EndDialogue);
            assert(next =~= base);
            assert(dialogues_above(here, floor + 1) == 0);
            assert forall|k: int| open < k <= at implies #[trigger] level(s, k) > level(
                s,
                open,
            ) by {
                assert(counted(s, open, k));
            }
            at
        } else {
            if s[at].is_opener() {
                let kind = if s[at] is Dialogue {
                    ScopeKind::Dialogue
                } else {
                    ScopeKind::Choice
                };
                assert(next == here.push(kind));
                lemma_dialogues_above_push(here, floor + 1, kind);
                assert(next.subrange(0, floor + 1) =~= here.subrange(0, floor + 1));
            } else if s[at].is_closer() {
                assert(next == here.drop_last());
                assert(next.subrange(0, floor + 1) =~= here.subrange(0, floor + 1));
                if s[at] is EndDialogue {
                    assert(dialogues_above(here, floor + 1) >= 1) by {
                        lemma_dialogues_above_bounds(here.drop_last(), floor + 1);
                    }
                }
            } else {
                assert(next == here);
            }
            assert(level(s, at + 1) == next.len());
            assert(counted(s, open, at + 1));
            lemma_dialogue_scan(s, open, at + 1)
        }
    }
}

/// On a balanced sequence the dialogue-counting scan from a dialogue opener
/// stops, before the sequence ends, at the `EndDialogue` that pairs with it.
pub proof fn lemma_dialogue_scope_closes(s: Seq<Statement>, open: int)
    requires
        balanced(s),
        0 <= open < s.len(),
        s[open] is Dialogue,
    ensures
        dialogue_end(s, open) matches Some(end) && pairs_with(s, open, end) && s[end]
            is EndDialogue,
{
    lemma_prefix_open(s, s.len() as int, open);
    lemma_prefix_open(s, s.len() as int, open + 1);
    let base = open_scopes(s, open).unwrap();
    let first = open_scopes(s, open + 1).unwrap();
    assert(first == base.push(ScopeKind::Dialogue));
    assert(first.subrange(0, level(s, open) + 1) =~= first);
    assert(dialogues_above(first, level(s, open) + 1) == 0);
    assert(counted(s, open, open + 1));
    let end = lemma_dialogue_scan(s, open, open + 1);
    lemma_dialogue_end_is(s, open, end);
}

/// The innermost scope open before position `at` is that of a dialogue.
pub open spec fn in_dialogue(s: Seq<Statement>, at: int) -> bool {
    open_scopes(s, at) matches Some(open) && open.len() > 0 && open.last() is Dialogue
}

/// Every choice stands directly in a dialogue.
pub open spec fn choices_in_dialogues(s: Seq<Statement>) -> bool {
    forall|at: int| 0 <= at < s.len() && s[at] is Choice ==> #[trigger] in_dialogue(s, at)
}

/// The sequence is balanced, and its choices are choices of dialogues.
pub open spec fn well_nested(s: Seq<Statement>) -> bool {
    balanced(s) && choices_in_dialogues(s)
}

/// The choices that a dialogue offers are its children.
///
/// On a well nested sequence, a choice in the scope of a dialogue is one that
/// the dialogue offers exactly if it stands directly in that scope, with no
/// other scope open in between.
pub proof fn lemma_offered_are_children(s: Seq<Statement>, open: int, at: int)
    requires
        well_nested(s),
        0 <= open < s.len(),
        s[open] is Dialogue,
        open < at < dialogue_end(s, open).unwrap(),
        s[at] is Choice,
    ensures
        is_offered(s, open, at) <==> level(s, at) == level(s, open) + 1,
{
    lemma_prefix_open(s, s.len() as int, open);
    lemma_prefix_open(s, s.len() as int, open + 1);
    let base = open_scopes(s, open).unwrap();
    let first = open_scopes(s, open + 1).unwrap();
    assert(first == base.push(ScopeKind::Dialogue));
    assert(first.subrange(0, level(s, open) + 1) =~= first);
    assert(dialogues_above(first, level(s, open) + 1) == 0);
    assert(counted(s, open, open + 1));
    let end = lemma_dialogue_scan(s, open, open + 1);
    lemma_dialogue_end_is(s, open, end);
    assert(counted(s, open, at));
    assert(in_dialogue(s, at));
    let here = open_scopes(s, at).unwrap();
    lemma_dialogues_above_bounds(here.drop_last(), level(s, open) + 1);
}

proof fn lemma_choice_scan(s: Seq<Statement>, open: int, at: int) -> (end: int)
    requires
        balanced(s),
        0 <= open < at <= s.len(),
        s[open] is Choice,
        open_scopes(s, open) is Some,
        open_scopes(s, at) is Some,
        level(s, at) > level(s, open),
        open_scopes(s, at).unwrap().subrange(0, level(s, open) + 1) == open_scopes(
            s,
            open,
        ).unwrap().push(ScopeKind::Choice),
        scope_depth(s, open + 1, at) == level(s, at) - level(s, open) - 1,
        forall|k: int| open < k < at ==> !closes_scope(s, open, k),
        forall|k: int| open < k <= at ==> #[trigger] level(s, k) > level(s, open),
    ensures
        is_scope_end(s, open, end),
        pairs_with(s, open, end),
        s[end] is EndChoice,
    decreases s.len() - at,
{
    let base = open_scopes(s, open).unwrap();
    let here = open_scopes(s, at).unwrap();
    let floor = base.len() as int;
    if at == s.len() {
        assert(false);
        arbitrary()
    } else {
        lemma_prefix_open(s, s.len() as int, at + 1);
        let next = open_scopes(s, at + 1).unwrap();
        assert(Some(next) == scopes_after(here, s[at]));
        if s[at].is_closer() && here.len() == floor + 1 {
            assert(here =~= here.subrange(0, floor + 1));
            assert(here.last() is Choice);
            assert(s[at] is EndChoice);
            assert(next =~= base);
            at
        } else {
            if s[at].is_opener() {
                let kind = if s[at] is Dialogue {
                    ScopeKind::Dialogue
                } else {
                    ScopeKind::Choice
                };
                assert(next == here.push(kind));
                assert(next.subrange(0, floor + 1) =~= here.subrange(0, floor + 1));
            } else if s[at].is_closer() {
                assert(next == here.drop_last());
                assert(next.subrange(0, floor + 1) =~= here.subrange(0, floor + 1));
            } else {
                assert(next == here);
            }
            assert(level(s, at + 1) == next.len());
            lemma_choice_scan(s, open, at + 1)
        }
    }
}

/// On a balanced sequence the scope-counting scan from a choice opener
/// stops, before the sequence ends, at the `EndChoice` that pairs with it.
pub proof fn lemma_choice_scope_closes(s: Seq<Statement>, open: int)
    requires
        balanced(s),
        0 <= open < s.len(),
        s[open] is Choice,
    ensures
        choice_end(s, open) matches Some(end) && pairs_with(s, open, end) && s[end]
            is EndChoice,
{
    lemma_prefix_open(s, s.len() as int, open);
    lemma_prefix_open(s, s.len() as int, open + 1);
    let base = open_scopes(s, open).unwrap();
    let first = open_scopes(s, open + 1).unwrap();
    assert(first == base.push(ScopeKind::Choice));
    assert(first.subrange(0, level(s, open) + 1) =~= first);
    let end = lemma_choice_scan(s, open, open + 1);
    lemma_choice_end_is(s, open, end);
}

/// The scopes that are open after the statements of `s`, if `from` were open
/// before them.
pub open spec fn scopes_through(s: Seq<Statement>, from: Seq<ScopeKind>) -> Option<
    Seq<ScopeKind>,
>
    decreases s.len(),
{
    if s.len() == 0 {
        Some(from)
    } else {
        match scopes_through(s.drop_last(), from) {
            Some(open) => scopes_after(open, s.last()),
            None => None,
        }
    }
}

/// Running through one statement is applying it.
pub proof fn lemma_scopes_through_one(statement: Statement, from: Seq<ScopeKind>)
    ensures
        scopes_through(seq![statement], from) == scopes_after(from, statement),
{
    reveal_with_fuel(scopes_through, 2);
    assert(seq![statement].drop_last() =~= Seq::<Statement>::empty());
}

/// The scopes open after a prefix are those that the prefix runs through
/// from none.
pub proof fn lemma_open_scopes_through(s: Seq<Statement>, upto: int)
    requires
        0 <= upto <= s.len(),
    ensures
        open_scopes(s, upto) == scopes_through(s.take(upto), Seq::empty()),
    decreases upto,
{
    if upto > 0 {
        lemma_open_scopes_through(s, upto - 1);
        assert(s.take(upto).drop_last() =~= s.take(upto - 1));
    }
}

/// Running through two sequences in a row is running through the first and
/// then, from where that ends, through the second.
pub proof fn lemma_scopes_through_both(a: Seq<Statement>, b: Seq<Statement>, from: Seq<ScopeKind>)
    ensures
        scopes_through(a + b, from) == match scopes_through(a, from) {
            Some(open) => scopes_through(b, open),
            None => None,
        },
    decreases b.len(),
{
    if b.len() == 0 {
        assert(a + b =~= a);
    } else {
        lemma_scopes_through_both(a, b.drop_last(), from);
        assert((a + b).drop_last() =~= a + b.drop_last());
    }
}

/// Two scopes lie inside each other or apart: a scope that opens inside
/// another one closes inside it.
pub proof fn lemma_scopes_nest(s: Seq<Statement>, outer: int, outer_end: int, inner: int, inner_end: int)
    requires
        pairs_with(s, outer, outer_end),
        pairs_with(s, inner, inner_end),
        outer < inner <= outer_end,
    ensures
        inner_end < outer_end,
{
    assert(level(s, inner) > level(s, outer));
    if inner_end >= outer_end {
        assert(level(s, outer_end + 1) == level(s, outer));
        if inner_end == outer_end {
            assert(level(s, inner_end + 1) == level(s, inner));
        } else {
            assert(level(s, outer_end + 1) > level(s, inner));
        }
    }
}

/// What is ill-formed up to a place is ill-formed up to every later one.
pub proof fn lemma_failure_stays(s: Seq<Statement>, at: int, upto: int)
    requires
        open_scopes(s, at) is None,
        at <= upto,
    ensures
        open_scopes(s, upto) is None,
{
    if open_scopes(s, upto) is Some {
        lemma_prefix_open(s, upto, at);
    }
}

/// Tells whether a timeline is well nested, by one pass that keeps the open
/// scopes on a stack.
pub fn is_well_nested(timeline: &Vec<Statement>) -> (r: bool)
    ensures
        r == well_nested(timeline@),
{
    let n: usize = timeline.len();
    let mut open: Vec<ScopeKind> = Vec::new();
    let mut i: usize = 0;
    while i < n
        invariant
            n == timeline.len(),
            i <= n,
            open_scopes(timeline@, i as int) == Some(open@),
            forall|at: int|
                0 <= at < i && timeline[at] is Choice ==> #[trigger] in_dialogue(timeline@, at),
        decreases n - i,
    {
        let ghost before = open@;
        let fits: bool = match &timeline[i] {
            Statement::Dialogue { .. } => {
                open.push(ScopeKind::Dialogue);
                true
            },
            Statement::Choice { .. } => {
                let inside: bool = open.len() > 0 && match open[open.len() - 1] {
                    ScopeKind::Dialogue => true,
                    ScopeKind::Choice => false,
                };
                if !inside {
                    assert(!choices_in_dialogues(timeline@)) by {
                        assert(!in_dialogue(timeline@, i as int));
                    }
                    return false;
                }
                open.push(ScopeKind::Choice);
                true
            },
            Statement::EndDialogue => match open.pop() {
                Some(ScopeKind::Dialogue) => true,
                _ => false,
            },
            Statement::EndChoice => match open.pop() {
                Some(ScopeKind::Choice) => true,
                _ => false,
            },
            _ => true,
        };
        if !fits {
            proof {
                assert(scopes_after(before, timeline@[i as int]) is None);
                lemma_failure_stays(timeline@, i + 1, n as int);
            }
            return false;
        }
        assert(open@ =~= scopes_after(before, timeline@[i as int]).unwrap());
        i = i + 1;
    }
    assert(open.len() == 0 ==> open@ =~= Seq::<ScopeKind>::empty());
    open.len() == 0
}

/// Tells whether a timeline is balanced, by one pass that keeps the open
/// scopes on a stack.
pub fn is_balanced(timeline: &Vec<Statement>) -> (r: bool)
    ensures
        r == balanced(timeline@),
{
    let n: usize = timeline.len();
    let mut open: Vec<ScopeKind> = Vec::new();
    let mut i: usize = 0;
    while i < n
        invariant
            n == timeline.len(),
            i <= n,
            open_scopes(timeline@, i as int) == Some(open@),
        decreases n - i,
    {
        let ghost before = open@;
        let fits: bool = match &timeline[i] {
            Statement::Dialogue { .. } => {
                open.push(ScopeKind::Dialogue);
                true
            },
            Statement::Choice { .. } => {
                open.push(ScopeKind::Choice);
                true
            },
            Statement::EndDialogue => match open.pop() {
                Some(ScopeKind::Dialogue) => true,
                _ => false,
            },
            Statement::EndChoice => match open.pop() {
                Some(ScopeKind::Choice) => true,
                _ => false,
            },
            _ => true,
        };
        if !fits {
            proof {
                assert(scopes_after(before, timeline@[i as int]) is None);
                lemma_failure_stays(timeline@, i + 1, n as int);
            }
            return false;
        }
        assert(open@ =~= scopes_after(before, timeline@[i as int]).unwrap());
        i = i + 1;
    }
    assert(open.len() == 0 ==> open@ =~= Seq::<ScopeKind>::empty());
    open.len() == 0
}

} // verus!
