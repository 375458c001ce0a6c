//! From the lines of a script to its tree form.
//!
//! Nesting follows indentation: the lines one level deeper than a dialogue,
//! a choice or the head of a conditional block, up to the next line that is
//! not deeper, are its children. A conditional block has no node of its
//! own: its guard goes to each statement of the block, joined by `&&` to
//! the guard that a choice of the block states itself. Assignments and
//! jumps cannot carry a guard and are refused in a conditional block.

use vstd::prelude::*;
use vstd::string::StringExecFns;
use crate::line::{
    indent_of, indentation, is_space, item_of, optional_view, parse_item, skip_spaces, skip_tabs,
    trim_end, Item, ItemView,
};
use crate::statement::{clone_optional, Nested};

verus! {

/// Why a script was refused.
#[derive(Debug, Clone, Copy, PartialEq, Eq, Structural)]
pub enum ParseErrorKind {
    /// The line has none of the forms of a line.
    InvalidLine,
    /// The line is deeper than the block it stands in: it is indented under
    /// an assignment or a jump, or by more than one level at once.
    UnexpectedIndent,
    /// An assignment or a jump in a conditional block.
    Unguarded,
}

/// A refused script: the number of the first offending line, counted from
/// one, and what is wrong with it.
#[derive(Debug, Clone, Copy, PartialEq, Eq, Structural)]
pub struct ParseError {
    pub line: usize,
    pub kind: ParseErrorKind,
}

/// A tree node with its strings as sequences of characters.
pub enum NestedView {
    Dialogue {
        speaker: Option<Seq<char>>,
        text: Seq<char>,
        condition: Option<Seq<char>>,
        children: Seq<NestedView>,
    },
    Choice { text: Seq<char>, condition: Option<Seq<char>>, children: Seq<NestedView> },
    Assign { variable: Seq<char>, expression: Seq<char> },
    Jump { target: Seq<char> },
}

/// The view of one node.
pub open spec fn tree_view(node: Nested) -> NestedView
    decreases node, 0int,
{
    match node {
        Nested::Dialogue { speaker, text, condition, children } => NestedView::Dialogue {
            speaker: optional_view(speaker),
            text: text@,
            condition: optional_view(condition),
            children: forest_view(children@, children@.len() as int),
        },
        Nested::Choice { text, condition, children } => NestedView::Choice {
            text: text@,
            condition: optional_view(condition),
            children: forest_view(children@, children@.len() as int),
        },
        Nested::Assign { variable, expression } => NestedView::Assign {
            variable: variable@,
            expression: expression@,
        },
        Nested::Jump { target } => NestedView::Jump { target: target@ },
    }
}

/// The views of the first `count` nodes.
pub open spec fn forest_view(nodes: Seq<Nested>, count: int) -> Seq<NestedView>
    decreases nodes, count,
{
    if count <= 0 || count > nodes.len() {
        Seq::empty()
    } else {
        forest_view(nodes, count - 1).push(tree_view(nodes[count - 1]))
    }
}

/// The views of all nodes.
pub open spec fn forest(nodes: Seq<Nested>) -> Seq<NestedView> {
    forest_view(nodes, nodes.len() as int)
}

proof fn lemma_forest_prefix(nodes: Seq<Nested>, more: Seq<Nested>, count: int)
    requires
        0 <= count <= nodes.len() <= more.len(),
        forall|i: int| 0 <= i < nodes.len() ==> nodes[i] == more[i],
    ensures
        forest_view(more, count) == forest_view(nodes, count),
    decreases count,
{
    if count > 0 {
        lemma_forest_prefix(nodes, more, count - 1);
    }
}

proof fn lemma_forest_push(nodes: Seq<Nested>, node: Nested)
    ensures
        forest(nodes.push(node)) == forest(nodes).push(tree_view(node)),
{
    lemma_forest_prefix(nodes, nodes.push(node), nodes.len() as int);
}

/// A line that says something: its number, its depth and what it says.
struct Entry {
    line: usize,
    depth: usize,
    item: Item,
}

/// An entry with its item by its view.
pub struct EntryView {
    pub line: int,
    pub depth: int,
    pub item: ItemView,
}

impl Entry {
    spec fn view(&self) -> EntryView {
        EntryView { line: self.line as int, depth: self.depth as int, item: self.item@ }
    }
}

/// The entries of some lines, or the first line that has no valid form.
pub struct Scanned {
    pub entries: Seq<EntryView>,
    pub error: Option<ParseError>,
}

/// The entries of the first `count` lines: one for each line that is not
/// blank, in order.
pub open spec fn entries_of(lines: Seq<Seq<char>>, count: int) -> Scanned
    decreases count,
{
    if count <= 0 || count > lines.len() {
        Scanned { entries: Seq::empty(), error: None }
    } else {
        let before = entries_of(lines, count - 1);
        if before.error is Some {
            before
        } else {
            match item_of(lines[count - 1]) {
                None => Scanned {
                    entries: before.entries,
                    error: Some(
                        ParseError { line: count as usize, kind: ParseErrorKind::InvalidLine },
                    ),
                },
                Some(ItemView::Blank) => before,
                Some(item) => Scanned {
                    entries: before.entries.push(
                        EntryView { line: count, depth: indent_of(lines[count - 1]), item },
                    ),
                    error: None,
                },
            }
        }
    }
}

/// The guard of a statement in a conditional block: the guard of the block,
/// the guard of the statement, or both joined by `&&`.
pub open spec fn both(outer: Option<Seq<char>>, inner: Option<Seq<char>>) -> Option<Seq<char>> {
    match (outer, inner) {
        (Some(a), Some(b)) => Some("("@ + a + ") && ("@ + b + ")"@),
        (Some(a), None) => Some(a),
        (None, inner) => inner,
    }
}

/// The nodes built so far, the entry to go on with, and the error if the
/// building stopped at one.
pub struct Built {
    pub nodes: Seq<NestedView>,
    pub next: int,
    pub error: Option<ParseError>,
}

/// The position to go on from behind the children of the entry at `pos`:
/// where their block ended.
pub open spec fn behind(next: int, pos: int, len: int) -> int {
    if pos < next <= len {
        next
    } else {
        pos + 1
    }
}

/// A building that stopped at the entry `at`.
pub open spec fn stopped(entries: Seq<EntryView>, at: int, kind: ParseErrorKind) -> Built {
    Built {
        nodes: Seq::empty(),
        next: at,
        error: Some(ParseError { line: entries[at].line as usize, kind }),
    }
}

/// The block of depth `depth` that starts at the entry `pos`, added to the
/// nodes `done`: the nodes of the entries of that depth, each with the block
/// one level deeper behind it as its children, up to the first entry that is
/// less deep. `guard` is the guard of the conditional block that the block
/// is, or stands in without a scope in between.
pub open spec fn block(
    entries: Seq<EntryView>,
    pos: int,
    depth: int,
    guard: Option<Seq<char>>,
    done: Seq<NestedView>,
) -> Built
    decreases entries.len() - pos,
{
    if pos < 0 || pos >= entries.len() || entries[pos].depth < depth {
        Built { nodes: done, next: pos, error: None }
    } else if entries[pos].depth > depth {
        stopped(entries, pos, ParseErrorKind::UnexpectedIndent)
    } else {
        match entries[pos].item {
            ItemView::Dialogue { speaker, text } => {
                let inner = block(entries, pos + 1, depth + 1, None, Seq::empty());
                if inner.error is Some {
                    inner
                } else {
                    block(
                        entries,
                        behind(inner.next, pos, entries.len() as int),
                        depth,
                        guard,
                        done.push(
                            NestedView::Dialogue {
                                speaker,
                                text,
                                condition: guard,
                                children: inner.nodes,
                            },
                        ),
                    )
                }
            },
            ItemView::Choice { text, condition } => {
                let inner = block(entries, pos + 1, depth + 1, None, Seq::empty());
                if inner.error is Some {
                    inner
                } else {
                    block(
                        entries,
                        behind(inner.next, pos, entries.len() as int),
                        depth,
                        guard,
                        done.push(
                            NestedView::Choice {
                                text,
                                condition: both(guard, condition),
                                children: inner.nodes,
                            },
                        ),
                    )
                }
            },
            ItemView::Condition { expression } => {
                let inner = block(entries, pos + 1, depth + 1, both(guard, Some(expression)), done);
                if inner.error is Some {
                    inner
                } else {
                    block(entries, behind(inner.next, pos, entries.len() as int), depth, guard, inner.nodes)
                }
            },
            ItemView::Assign { variable, expression } => if guard is Some {
                stopped(entries, pos, ParseErrorKind::Unguarded)
            } else {
                block(
                    entries,
                    pos + 1,
                    depth,
                    guard,
                    done.push(NestedView::Assign { variable, expression }),
                )
            },
            ItemView::Jump { target } => if guard is Some {
                stopped(entries, pos, ParseErrorKind::Unguarded)
            } else {
                block(entries, pos + 1, depth, guard, done.push(NestedView::Jump { target }))
            },
            ItemView::Blank => block(entries, pos + 1, depth, guard, done),
        }
    }
}

/// The tree form of a script given by its lines, or the first line at which
/// it is refused.
pub open spec fn parsed(lines: Seq<Seq<char>>) -> Result<Seq<NestedView>, ParseError> {
    let scanned = entries_of(lines, lines.len() as int);
    if scanned.error is Some {
        Err(scanned.error.unwrap())
    } else {
        let built = block(scanned.entries, 0, 0, None, Seq::empty());
        if built.error is Some {
            Err(built.error.unwrap())
        } else {
            Ok(built.nodes)
        }
    }
}

/// The lines of a script as sequences of characters.
pub open spec fn lines_view(lines: Seq<String>) -> Seq<Seq<char>> {
    Seq::new(lines.len(), |i: int| lines[i]@)
}

/// The entries as sequences of their views.
spec fn entries_view(entries: Seq<Entry>) -> Seq<EntryView> {
    Seq::new(entries.len(), |i: int| entries[i]@)
}

/// The tabs at the start of a line are among its leading spaces.
proof fn lemma_tabs_are_spaces(s: Seq<char>, from: int)
    requires
        0 <= from,
    ensures
        from <= skip_tabs(s, from) <= skip_spaces(s, from),
        skip_spaces(s, from) <= s.len() || skip_spaces(s, from) == from,
    decreases s.len() - from,
{
    if from < s.len() && is_space(s[from]) {
        lemma_tabs_are_spaces(s, from + 1);
    }
}

/// A line that is not blank is longer than its indentation.
proof fn lemma_depth_is_small(s: Seq<char>)
    requires
        item_of(s) is Some,
        item_of(s) != Some(ItemView::Blank),
    ensures
        0 <= indent_of(s) < s.len(),
{
    lemma_tabs_are_spaces(s, 0);
    lemma_trim_in_range(s, skip_spaces(s, 0), s.len() as int);
}

proof fn lemma_trim_in_range(s: Seq<char>, from: int, to: int)
    ensures
        trim_end(s, from, to) <= to,
    decreases to - from,
{
    if from < to <= s.len() && is_space(s[to - 1]) {
        lemma_trim_in_range(s, from, to - 1);
    }
}

/// A line that was refused is still refused when more lines are read.
proof fn lemma_refusal_stays(lines: Seq<Seq<char>>, count: int, more: int)
    requires
        entries_of(lines, count).error is Some,
        count <= more <= lines.len(),
    ensures
        entries_of(lines, more) == entries_of(lines, count),
    decreases more - count,
{
    if count < more {
        lemma_refusal_stays(lines, count, more - 1);
    }
}

/// Reads the lines one by one and keeps those that say something.
fn scan(lines: &Vec<String>) -> (r: Result<Vec<Entry>, ParseError>)
    ensures
        ({
            let scanned = entries_of(lines_view(lines@), lines.len() as int);
            match r {
                Ok(entries) => scanned.error is None && entries_view(entries@) == scanned.entries
                    && forall|i: int| 0 <= i < entries.len() ==> entries[i].depth < usize::MAX,
                Err(error) => scanned.error == Some(error),
            }
        }),
{
    let ghost view = lines_view(lines@);
    let n: usize = lines.len();
    let mut entries: Vec<Entry> = Vec::new();
    let mut i: usize = 0;
    assert(entries_view(entries@) =~= Seq::<EntryView>::empty());
    while i < n
        invariant
            n == lines.len(),
            i <= n,
            view == lines_view(lines@),
            entries_of(view, i as int).error is None,
            entries_view(entries@) == entries_of(view, i as int).entries,
            forall|k: int| 0 <= k < entries.len() ==> entries[k].depth < usize::MAX,
        decreases n - i,
    {
        let line: &str = lines[i].as_str();
        assert(view[i as int] == line@);
        match parse_item(line) {
            None => {
                proof {
                    lemma_refusal_stays(view, i + 1, n as int);
                }
                return Err(ParseError { line: i + 1, kind: ParseErrorKind::InvalidLine });
            },
            Some(Item::Blank) => {},
            Some(item) => {
                let depth: usize = indentation(line);
                proof {
                    lemma_depth_is_small(line@);
                }
                let ghost before = entries@;
                let entry = Entry { line: i + 1, depth, item };
                entries.push(entry);
                assert(entries_view(entries@) =~= entries_view(before).push(entry@));
            },
        }
        i = i + 1;
    }
    Ok(entries)
}

/// The guard of a statement in a conditional block.
fn join_guards(outer: &Option<String>, inner: &Option<String>) -> (r: Option<String>)
    ensures
        optional_view(r) == both(optional_view(*outer), optional_view(*inner)),
{
    match outer {
        Some(a) => match inner {
            Some(b) => {
                let mut joined: String = String::from_str("(");
                joined.append(a.as_str());
                joined.append(") && (");
                joined.append(b.as_str());
                joined.append(")");
                Some(joined)
            },
            None => Some(a.clone()),
        },
        None => clone_optional(inner),
    }
}

/// Builds the block of depth `depth` that starts at the entry `pos`, and
/// appends its nodes to `out`. Returns the entry to go on with.
fn build(
    entries: &Vec<Entry>,
    pos: usize,
    depth: usize,
    guard: &Option<String>,
    out: &mut Vec<Nested>,
) -> (r: Result<usize, ParseError>)
    requires
        pos <= entries.len(),
        forall|i: int| 0 <= i < entries.len() ==> entries[i].depth < usize::MAX,
    ensures
        ({
            let built = block(
                entries_view(entries@),
                pos as int,
                depth as int,
                optional_view(*guard),
                forest(old(out)@),
            );
            match r {
                Ok(next) => built.error is None && built.next == next && built.nodes == forest(
                    final(out)@,
                ) && pos <= next <= entries.len(),
                Err(error) => built.error == Some(error),
            }
        }),
    decreases entries.len() - pos,
{
    let ghost view = entries_view(entries@);
    let ghost start = forest(out@);
    let n: usize = entries.len();
    let mut at: usize = pos;
    loop
        invariant
            n == entries.len(),
            pos <= at <= n,
            view == entries_view(entries@),
            start == forest(old(out)@),
            forall|i: int| 0 <= i < entries.len() ==> entries[i].depth < usize::MAX,
            block(view, pos as int, depth as int, optional_view(*guard), start) == block(
                view,
                at as int,
                depth as int,
                optional_view(*guard),
                forest(out@),
            ),
        decreases n - at,
    {
        if at >= n {
            return Ok(at);
        }
        let entry: &Entry = &entries[at];
        assert(view[at as int] == entry@);
        if entry.depth < depth {
            return Ok(at);
        }
        if entry.depth > depth {
            return Err(ParseError { line: entry.line, kind: ParseErrorKind::UnexpectedIndent });
        }
        let ghost before = out@;
        match &entry.item {
            Item::Dialogue { speaker, text } => {
                let mut children: Vec<Nested> = Vec::new();
                let next: usize = match build(entries, at + 1, depth + 1, &None, &mut children) {
                    Ok(next) => next,
                    Err(error) => {
                        return Err(error);
                    },
                };
                let node = Nested::Dialogue {
                    speaker: clone_optional(speaker),
                    text: text.clone(),
                    condition: clone_optional(guard),
                    children,
                };
                out.push(node);
                proof {
                    lemma_forest_push(before, node);
                }
                at = next;
            },
            Item::Choice { text, condition } => {
                let mut children: Vec<Nested> = Vec::new();
                let next: usize = match build(entries, at + 1, depth + 1, &None, &mut children) {
                    Ok(next) => next,
                    Err(error) => {
                        return Err(error);
                    },
                };
                let node = Nested::Choice {
                    text: text.clone(),
                    condition: join_guards(guard, condition),
                    children,
                };
                out.push(node);
                proof {
                    lemma_forest_push(before, node);
                }
                at = next;
            },
            Item::Condition { expression } => {
                let inner: Option<String> = join_guards(guard, &Some(expression.clone()));
                let next: usize = match build(entries, at + 1, depth + 1, &inner, out) {
                    Ok(next) => next,
                    Err(error) => {
                        return Err(error);
                    },
                };
                at = next;
            },
            Item::Assign { variable, expression } => {
                if guard.is_some() {
                    return Err(ParseError { line: entry.line, kind: ParseErrorKind::Unguarded });
                }
                let node = Nested::Assign {
                    variable: variable.clone(),
                    expression: expression.clone(),
                };
                out.push(node);
                proof {
                    lemma_forest_push(before, node);
                }
                at = at + 1;
            },
            Item::Jump { target } => {
                if guard.is_some() {
                    return Err(ParseError { line: entry.line, kind: ParseErrorKind::Unguarded });
                }
                let node = Nested::Jump { target: target.clone() };
                out.push(node);
                proof {
                    lemma_forest_push(before, node);
                }
                at = at + 1;
            },
            Item::Blank => {
                at = at + 1;
            },
        }
    }
}

/// Reads a script, given by its lines, into its tree form. The script is
/// refused at the first line that has no valid form; else at the first line
/// that does not fit into the nesting.
pub fn parse_lines(lines: &Vec<String>) -> (r: Result<Vec<Nested>, ParseError>)
    ensures
        parsed(lines_view(lines@)) == match r {
            Ok(nodes) => Ok(forest(nodes@)),
            Err(error) => Err(error),
        },
{
    let entries: Vec<Entry> = match scan(lines) {
        Ok(entries) => entries,
        Err(error) => {
            return Err(error);
        },
    };
    let mut nodes: Vec<Nested> = Vec::new();
    match build(&entries, 0, 0, &None, &mut nodes) {
        Ok(_) => Ok(nodes),
        Err(error) => Err(error),
    }
}

} // verus!
