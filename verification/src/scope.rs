//! Finding the end of a scope, and the choices of a dialogue, by counting.
//!
//! The flat form keeps no parent or child links. Every question about the
//! tree is answered by a forward scan that counts openers and terminators.

use vstd::prelude::*;
use crate::statement::Statement;

verus! {

/// Dialogue scopes opened minus dialogue scopes closed by `s[from..to)`.
pub open spec fn dialogue_depth(s: Seq<Statement>, from: int, to: int) -> int
    decreases to - from,
{
    if to <= from {
        0
    } else {
        dialogue_depth(s, from, to - 1) + s[to - 1].dialogue_delta()
    }
}

/// Scopes of either kind opened minus scopes closed by `s[from..to)`.
pub open spec fn scope_depth(s: Seq<Statement>, from: int, to: int) -> int
    decreases to - from,
{
    if to <= from {
        0
    } else {
        scope_depth(s, from, to - 1) + s[to - 1].scope_delta()
    }
}

/// `at` holds an `EndDialogue` that is not owed to a dialogue opened after `open`.
pub open spec fn closes_dialogue(s: Seq<Statement>, open: int, at: int) -> bool {
    &&& 0 <= open < at < s.len()
    &&& s[at] is EndDialogue
    &&& dialogue_depth(s, open + 1, at) == 0
}

/// `end` is where the dialogue-counting scan from `open` stops.
pub open spec fn is_dialogue_end(s: Seq<Statement>, open: int, end: int) -> bool {
    &&& closes_dialogue(s, open, end)
    &&& forall|k: int| open < k < end ==> !closes_dialogue(s, open, k)
}

/// The position of the terminator that the dialogue-counting scan from `open`
/// reaches, or `None` if the sequence ends first.
pub open spec fn dialogue_end(s: Seq<Statement>, open: int) -> Option<int> {
    if exists|e: int| is_dialogue_end(s, open, e) {
        Some(choose|e: int| is_dialogue_end(s, open, e))
    } else {
        None
    }
}

/// `at` holds a terminator that is not owed to a scope opened after `open`.
pub open spec fn closes_scope(s: Seq<Statement>, open: int, at: int) -> bool {
    &&& 0 <= open < at < s.len()
    &&& s[at].is_closer()
    &&& scope_depth(s, open + 1, at) == 0
}

/// `end` is where the scope-counting scan from `open` stops.
pub open spec fn is_scope_end(s: Seq<Statement>, open: int, end: int) -> bool {
    &&& closes_scope(s, open, end)
    &&& forall|k: int| open < k < end ==> !closes_scope(s, open, k)
}

/// The position of the `EndChoice` that the scope-counting scan from `open`
/// reaches. `None` if the sequence ends first, or if the scan stops at an
/// `EndDialogue`: a choice is closed by a terminator of its own kind only.
pub open spec fn choice_end(s: Seq<Statement>, open: int) -> Option<int> {
    if exists|e: int| is_scope_end(s, open, e) && s[e] is EndChoice {
        Some(choose|e: int| is_scope_end(s, open, e) && s[e] is EndChoice)
    } else {
        None
    }
}

/// `at` holds a choice offered by the dialogue opened at `open`: no dialogue
/// opened after `open` is still open there.
pub open spec fn is_offered(s: Seq<Statement>, open: int, at: int) -> bool {
    &&& 0 <= open < at < s.len()
    &&& s[at] is Choice
    &&& dialogue_depth(s, open + 1, at) == 0
}

/// The positions before `to` of the choices offered by the dialogue opened at
/// `open`, in source order.
pub open spec fn choices_before(s: Seq<Statement>, open: int, to: int) -> Seq<int>
    decreases to - open,
{
    if to <= open + 1 {
        Seq::empty()
    } else if is_offered(s, open, to - 1) {
        choices_before(s, open, to - 1).push(to - 1)
    } else {
        choices_before(s, open, to - 1)
    }
}

/// The positions of the choices offered by the dialogue opened at `open`, in
/// source order: those between the opener and the dialogue's end. `None` if
/// the dialogue has no end.
pub open spec fn offered_choices(s: Seq<Statement>, open: int) -> Option<Seq<int>> {
    match dialogue_end(s, open) {
        Some(end) => Some(choices_before(s, open, end)),
        None => None,
    }
}

/// Positions as mathematical integers.
pub open spec fn as_positions(v: Seq<usize>) -> Seq<int> {
    Seq::new(v.len(), |i: int| v[i] as int)
}

/// `choices_before` lists every offered choice before `to` once, in
/// ascending order, and nothing else.
pub proof fn lemma_choices_before(s: Seq<Statement>, open: int, to: int)
    requires
        0 <= open,
    ensures
        forall|i: int|
            0 <= i < choices_before(s, open, to).len() ==> {
                &&& open < #[trigger] choices_before(s, open, to)[i] < to
                &&& is_offered(s, open, choices_before(s, open, to)[i])
            },
        forall|i: int, j: int|
            0 <= i < j < choices_before(s, open, to).len() ==> choices_before(s, open, to)[i]
                < choices_before(s, open, to)[j],
        forall|p: int|
            open < p < to && is_offered(s, open, p) ==> choices_before(
                s,
                open,
                to,
            ).contains(p),
    decreases to - open,
{
    if to > open + 1 {
        lemma_choices_before(s, open, to - 1);
        let before = choices_before(s, open, to - 1);
        let all = choices_before(s, open, to);
        assert forall|p: int| open < p < to && is_offered(s, open, p) implies all.contains(
            p,
        ) by {
            if p < to - 1 {
                let i = choose|i: int| 0 <= i < before.len() && before[i] == p;
                assert(all[i] == p);
            } else {
                assert(all[all.len() - 1] == p);
            }
        }
    }
}

/// The dialogue-counting scan stops at one place only, so a place where it
/// stops is the dialogue's end.
pub proof fn lemma_dialogue_end_is(s: Seq<Statement>, open: int, end: int)
    requires
        is_dialogue_end(s, open, end),
    ensures
        dialogue_end(s, open) == Some(end),
{
    let e = choose|e: int| is_dialogue_end(s, open, e);
    assert(!(e < end) && !(end < e));
}

/// The scope-counting scan stops at one place only.
pub proof fn lemma_scope_end_unique(s: Seq<Statement>, open: int, a: int, b: int)
    requires
        is_scope_end(s, open, a),
        is_scope_end(s, open, b),
    ensures
        a == b,
{
}

/// A place where the scope-counting scan stops at an `EndChoice` is the
/// choice's end.
pub proof fn lemma_choice_end_is(s: Seq<Statement>, open: int, end: int)
    requires
        is_scope_end(s, open, end),
        s[end] is EndChoice,
    ensures
        choice_end(s, open) == Some(end),
{
    let e = choose|e: int| is_scope_end(s, open, e) && s[e] is EndChoice;
    lemma_scope_end_unique(s, open, e, end);
}

/// Scans forward from the dialogue opener at `open`, counting nested
/// dialogues, and returns the position of its `EndDialogue`.
pub fn find_dialogue_end(timeline: &Vec<Statement>, open: usize) -> (r: Option<usize>)
    ensures
        r matches Some(end) ==> is_dialogue_end(timeline@, open as int, end as int),
        r is None ==> forall|k: int| !closes_dialogue(timeline@, open as int, k),
        dialogue_end(timeline@, open as int) == match r {
            Some(end) => Some(end as int),
            None => None,
        },
{
    let n: usize = timeline.len();
    if open >= n {
        return None;
    }
    let mut depth: usize = 0;
    let mut j: usize = open + 1;
    while j < n
        invariant
            n == timeline.len(),
            open < j <= n,
            depth as int == dialogue_depth(timeline@, open + 1, j as int),
            depth <= j,
            forall|k: int| open < k < j ==> !closes_dialogue(timeline@, open as int, k),
        decreases n - j,
    {
        match &timeline[j] {
            Statement::Dialogue { .. } => {
                depth = depth + 1;
            },
            Statement::EndDialogue => {
                if depth == 0 {
                    proof {
                        lemma_dialogue_end_is(timeline@, open as int, j as int);
                    }
                    return Some(j);
                }
                depth = depth - 1;
            },
            _ => {},
        }
        j = j + 1;
    }
    None
}

/// Scans forward from the choice opener at `open`, counting nested scopes of
/// both kinds, and returns the position of its `EndChoice`.
pub fn find_choice_end(timeline: &Vec<Statement>, open: usize) -> (r: Option<usize>)
    ensures
        r matches Some(end) ==> is_scope_end(timeline@, open as int, end as int)
            && timeline@[end as int] is EndChoice,
        r is None ==> forall|k: int|
            is_scope_end(timeline@, open as int, k) ==> timeline@[k] is EndDialogue,
        choice_end(timeline@, open as int) == match r {
            Some(end) => Some(end as int),
            None => None,
        },
{
    let n: usize = timeline.len();
    if open >= n {
        return None;
    }
    let mut depth: usize = 0;
    let mut j: usize = open + 1;
    while j < n
        invariant
            n == timeline.len(),
            open < j <= n,
            depth as int == scope_depth(timeline@, open + 1, j as int),
            depth <= j,
            forall|k: int| open < k < j ==> !closes_scope(timeline@, open as int, k),
        decreases n - j,
    {
        match &timeline[j] {
            Statement::Dialogue { .. } | Statement::Choice { .. } => {
                depth = depth + 1;
            },
            Statement::EndChoice => {
                if depth == 0 {
                    proof {
                        lemma_choice_end_is(timeline@, open as int, j as int);
                    }
                    return Some(j);
                }
                depth = depth - 1;
            },
            Statement::EndDialogue => {
                if depth == 0 {
                    proof {
                        assert forall|k: int|
                            is_scope_end(timeline@, open as int, k) implies timeline@[k]
                            is EndDialogue by {
                            lemma_scope_end_unique(timeline@, open as int, j as int, k);
                        }
                    }
                    return None;
                }
                depth = depth - 1;
            },
            _ => {},
        }
        j = j + 1;
    }
    None
}

/// Scans forward from the dialogue opener at `open` to the dialogue's end
/// and lists, in source order, the positions of the choices that the dialogue
/// offers. Choices of nested dialogues are passed over.
pub fn collect_choices(timeline: &Vec<Statement>, open: usize) -> (r: Option<Vec<usize>>)
    ensures
        offered_choices(timeline@, open as int) == match r {
            Some(found) => Some(as_positions(found@)),
            None => None,
        },
{
    let n: usize = timeline.len();
    if open >= n {
        return None;
    }
    let mut found: Vec<usize> = Vec::new();
    let mut depth: usize = 0;
    let mut j: usize = open + 1;
    while j < n
        invariant
            n == timeline.len(),
            open < j <= n,
            depth as int == dialogue_depth(timeline@, open + 1, j as int),
            depth <= j,
            forall|k: int| open < k < j ==> !closes_dialogue(timeline@, open as int, k),
            as_positions(found@) =~= choices_before(timeline@, open as int, j as int),
        decreases n - j,
    {
        match &timeline[j] {
            Statement::Dialogue { .. } => {
                depth = depth + 1;
            },
            Statement::EndDialogue => {
                if depth == 0 {
                    proof {
                        lemma_dialogue_end_is(timeline@, open as int, j as int);
                    }
                    return Some(found);
                }
                depth = depth - 1;
            },
            Statement::Choice { .. } => {
                if depth == 0 {
                    found.push(j);
                }
            },
            _ => {},
        }
        j = j + 1;
    }
    None
}

} // verus!
