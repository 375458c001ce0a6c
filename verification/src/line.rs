//! The grammar of one script line.
//!
//! A line is indented by tabs, one for each level of nesting. Behind the
//! indentation stands one of:
//! - `"text"` or `"speaker" "text"`: a dialogue line;
//! - `-- "text"`, with ` if <expression>` behind it or not: a choice;
//! - `if <expression>:`: the head of a conditional block;
//! - `jump "<timeline>"`: a jump;
//! - `<identifier> = <expression>`: an assignment;
//! - nothing: a blank line.
//!
//! A quoted string ends at the next quotation mark; there are no escapes.

use vstd::prelude::*;
use vstd::string::StrSliceExecFns;

verus! {

/// What one line says, without its indentation.
#[derive(Debug, PartialEq, Eq)]
pub enum Item {
    Blank,
    Dialogue { speaker: Option<String>, text: String },
    Choice { text: String, condition: Option<String> },
    Condition { expression: String },
    Jump { target: String },
    Assign { variable: String, expression: String },
}

/// An item with its strings as sequences of characters.
pub enum ItemView {
    Blank,
    Dialogue { speaker: Option<Seq<char>>, text: Seq<char> },
    Choice { text: Seq<char>, condition: Option<Seq<char>> },
    Condition { expression: Seq<char> },
    Jump { target: Seq<char> },
    Assign { variable: Seq<char>, expression: Seq<char> },
}

/// The characters of an optional string.
pub open spec fn optional_view(s: Option<String>) -> Option<Seq<char>> {
    match s {
        Some(text) => Some(text@),
        None => None,
    }
}

impl View for Item {
    type V = ItemView;

    open spec fn view(&self) -> ItemView {
        match *self {
            Item::Blank => ItemView::Blank,
            Item::Dialogue { speaker, text } => ItemView::Dialogue {
                speaker: optional_view(speaker),
                text: text@,
            },
            Item::Choice { text, condition } => ItemView::Choice {
                text: text@,
                condition: optional_view(condition),
            },
            Item::Condition { expression } => ItemView::Condition { expression: expression@ },
            Item::Jump { target } => ItemView::Jump { target: target@ },
            Item::Assign { variable, expression } => ItemView::Assign {
                variable: variable@,
                expression: expression@,
            },
        }
    }
}

/// A character that separates words and is dropped at the ends of a line.
pub open spec fn is_space(c: char) -> bool {
    c == ' ' || c == '\t' || c == '\r'
}

/// A character that can start an identifier.
pub open spec fn starts_identifier(c: char) -> bool {
    ('a' <= c && c <= 'z') || ('A' <= c && c <= 'Z') || c == '_'
}

/// A character that can stand in an identifier.
pub open spec fn continues_identifier(c: char) -> bool {
    starts_identifier(c) || ('0' <= c && c <= '9')
}

/// The first position from `from` on that holds no tab, or the length.
pub open spec fn skip_tabs(s: Seq<char>, from: int) -> int
    decreases s.len() - from,
{
    if 0 <= from < s.len() && s[from] == '\t' {
        skip_tabs(s, from + 1)
    } else {
        from
    }
}

/// The first position from `from` on that holds no space, or the length.
pub open spec fn skip_spaces(s: Seq<char>, from: int) -> int
    decreases s.len() - from,
{
    if 0 <= from < s.len() && is_space(s[from]) {
        skip_spaces(s, from + 1)
    } else {
        from
    }
}

/// The first position from `from` on that holds a quotation mark, or the
/// length.
pub open spec fn find_quote(s: Seq<char>, from: int) -> int
    decreases s.len() - from,
{
    if 0 <= from < s.len() && s[from] != '"' {
        find_quote(s, from + 1)
    } else {
        from
    }
}

/// The first position from `from` on that cannot stand in an identifier, or
/// the length.
pub open spec fn skip_identifier(s: Seq<char>, from: int) -> int
    decreases s.len() - from,
{
    if 0 <= from < s.len() && continues_identifier(s[from]) {
        skip_identifier(s, from + 1)
    } else {
        from
    }
}

/// The end of `s[from..to)` without the spaces at its end.
pub open spec fn trim_end(s: Seq<char>, from: int, to: int) -> int
    decreases to - from,
{
    if from < to <= s.len() && is_space(s[to - 1]) {
        trim_end(s, from, to - 1)
    } else {
        to
    }
}

/// The depth of a line: the number of tabs that it starts with.
pub open spec fn indent_of(s: Seq<char>) -> int {
    skip_tabs(s, 0)
}

/// The quoted string that opens at `at`, and the position behind its
/// closing mark. `None` if it does not close before `end`.
pub open spec fn quoted(s: Seq<char>, at: int, end: int) -> Option<(Seq<char>, int)> {
    let close = find_quote(s, at + 1);
    if close < end {
        Some((s.subrange(at + 1, close), close + 1))
    } else {
        None
    }
}

/// The word `if` stands at `at`, with a space behind it, before `end`.
pub open spec fn has_if(s: Seq<char>, at: int, end: int) -> bool {
    at + 2 < end && s[at] == 'i' && s[at + 1] == 'f' && is_space(s[at + 2])
}

/// The word `jump` stands at `at`, with a space or a quotation mark behind
/// it, before `end`.
pub open spec fn has_jump(s: Seq<char>, at: int, end: int) -> bool {
    at + 4 < end && s[at] == 'j' && s[at + 1] == 'u' && s[at + 2] == 'm' && s[at + 3] == 'p' && (
    is_space(s[at + 4]) || s[at + 4] == '"')
}

/// A dialogue line: one quoted string, or two with the speaker first.
pub open spec fn dialogue_of(s: Seq<char>, start: int, end: int) -> Option<ItemView> {
    match quoted(s, start, end) {
        Some((first, behind)) => {
            let next = skip_spaces(s, behind);
            if next >= end {
                Some(ItemView::Dialogue { speaker: None, text: first })
            } else if s[next] == '"' {
                match quoted(s, next, end) {
                    Some((second, last)) => if skip_spaces(s, last) >= end {
                        Some(ItemView::Dialogue { speaker: Some(first), text: second })
                    } else {
                        None
                    },
                    None => None,
                }
            } else {
                None
            }
        },
        None => None,
    }
}

/// A choice, from behind its `--` mark: a quoted string, and behind it
/// either nothing or `if` and a guard.
pub open spec fn choice_of(s: Seq<char>, at: int, end: int) -> Option<ItemView> {
    let open = skip_spaces(s, at);
    if open < end && s[open] == '"' {
        match quoted(s, open, end) {
            Some((text, behind)) => {
                let next = skip_spaces(s, behind);
                if next >= end {
                    Some(ItemView::Choice { text, condition: None })
                } else if has_if(s, next, end) {
                    Some(
                        ItemView::Choice {
                            text,
                            condition: Some(s.subrange(skip_spaces(s, next + 2), end)),
                        },
                    )
                } else {
                    None
                }
            },
            None => None,
        }
    } else {
        None
    }
}

/// The head of a conditional block, from behind its `if`: a guard and a
/// colon at the end.
pub open spec fn condition_of(s: Seq<char>, at: int, end: int) -> Option<ItemView> {
    let from = skip_spaces(s, at);
    let to = trim_end(s, from, end - 1);
    if s[end - 1] == ':' && from < to {
        Some(ItemView::Condition { expression: s.subrange(from, to) })
    } else {
        None
    }
}

/// A jump, from behind its `jump`: a quoted timeline name and nothing more.
pub open spec fn jump_of(s: Seq<char>, at: int, end: int) -> Option<ItemView> {
    let open = skip_spaces(s, at);
    if open < end && s[open] == '"' {
        match quoted(s, open, end) {
            Some((target, behind)) => if skip_spaces(s, behind) >= end {
                Some(ItemView::Jump { target })
            } else {
                None
            },
            None => None,
        }
    } else {
        None
    }
}

/// An assignment: an identifier, one `=` and an expression.
pub open spec fn assign_of(s: Seq<char>, start: int, end: int) -> Option<ItemView> {
    let name_end = skip_identifier(s, start);
    let sign = skip_spaces(s, name_end);
    let from = skip_spaces(s, sign + 1);
    if starts_identifier(s[start]) && sign < end && s[sign] == '=' && from < end && s[from] != '=' {
        Some(
            ItemView::Assign {
                variable: s.subrange(start, name_end),
                expression: s.subrange(from, end),
            },
        )
    } else {
        None
    }
}

/// What the line `s` says, or `None` if it is none of the forms of a line.
pub open spec fn item_of(s: Seq<char>) -> Option<ItemView> {
    let start = skip_spaces(s, 0);
    let end = trim_end(s, start, s.len() as int);
    if start >= end {
        Some(ItemView::Blank)
    } else if s[start] == '"' {
        dialogue_of(s, start, end)
    } else if start + 1 < end && s[start] == '-' && s[start + 1] == '-' {
        choice_of(s, start + 2, end)
    } else if has_if(s, start, end) {
        condition_of(s, start + 2, end)
    } else if has_jump(s, start, end) {
        jump_of(s, start + 4, end)
    } else {
        assign_of(s, start, end)
    }
}

fn is_space_char(c: char) -> (r: bool)
    ensures
        r == is_space(c),
{
    c == ' ' || c == '\t' || c == '\r'
}

fn starts_identifier_char(c: char) -> (r: bool)
    ensures
        r == starts_identifier(c),
{
    ('a' <= c && c <= 'z') || ('A' <= c && c <= 'Z') || c == '_'
}

fn continues_identifier_char(c: char) -> (r: bool)
    ensures
        r == continues_identifier(c),
{
    starts_identifier_char(c) || ('0' <= c && c <= '9')
}

/// The characters of a line, one by one.
pub(crate) fn characters(line: &str) -> (r: Vec<char>)
    ensures
        r@ == line@,
{
    let n: usize = line.unicode_len();
    let mut out: Vec<char> = Vec::new();
    let mut i: usize = 0;
    while i < n
        invariant
            n == line@.len(),
            i <= n,
            out@ == line@.subrange(0, i as int),
        decreases n - i,
    {
        out.push(line.get_char(i));
        assert(out@ =~= line@.subrange(0, i + 1));
        i = i + 1;
    }
    assert(out@ =~= line@);
    out
}

/// The characters `from..to` of a line, as a string.
fn piece(line: &str, from: usize, to: usize) -> (r: String)
    requires
        from <= to <= line@.len(),
    ensures
        r@ == line@.subrange(from as int, to as int),
{
    line.substring_char(from, to).to_owned()
}

fn skip_tabs_from(chars: &Vec<char>, from: usize) -> (r: usize)
    requires
        from <= chars.len(),
    ensures
        r == skip_tabs(chars@, from as int),
        from <= r <= chars.len(),
{
    let n: usize = chars.len();
    let mut i: usize = from;
    while i < n && chars[i] == '\t'
        invariant
            n == chars.len(),
            from <= i <= n,
            skip_tabs(chars@, from as int) == skip_tabs(chars@, i as int),
        decreases n - i,
    {
        i = i + 1;
    }
    i
}

fn skip_spaces_from(chars: &Vec<char>, from: usize) -> (r: usize)
    requires
        from <= chars.len(),
    ensures
        r == skip_spaces(chars@, from as int),
        from <= r <= chars.len(),
        r < chars.len() ==> !is_space(chars[r as int]),
{
    let n: usize = chars.len();
    let mut i: usize = from;
    while i < n && is_space_char(chars[i])
        invariant
            n == chars.len(),
            from <= i <= n,
            skip_spaces(chars@, from as int) == skip_spaces(chars@, i as int),
        decreases n - i,
    {
        i = i + 1;
    }
    i
}

fn find_quote_from(chars: &Vec<char>, from: usize) -> (r: usize)
    requires
        from <= chars.len(),
    ensures
        r == find_quote(chars@, from as int),
        from <= r <= chars.len(),
{
    let n: usize = chars.len();
    let mut i: usize = from;
    while i < n && chars[i] != '"'
        invariant
            n == chars.len(),
            from <= i <= n,
            find_quote(chars@, from as int) == find_quote(chars@, i as int),
        decreases n - i,
    {
        i = i + 1;
    }
    i
}

fn skip_identifier_from(chars: &Vec<char>, from: usize) -> (r: usize)
    requires
        from <= chars.len(),
    ensures
        r == skip_identifier(chars@, from as int),
        from <= r <= chars.len(),
{
    let n: usize = chars.len();
    let mut i: usize = from;
    while i < n && continues_identifier_char(chars[i])
        invariant
            n == chars.len(),
            from <= i <= n,
            skip_identifier(chars@, from as int) == skip_identifier(chars@, i as int),
        decreases n - i,
    {
        i = i + 1;
    }
    i
}

fn trim_end_to(chars: &Vec<char>, from: usize, to: usize) -> (r: usize)
    requires
        from <= to <= chars.len(),
    ensures
        r == trim_end(chars@, from as int, to as int),
        from <= r <= to,
        from < r ==> !is_space(chars[r - 1]),
{
    let mut i: usize = to;
    while from < i && is_space_char(chars[i - 1])
        invariant
            from <= i <= to,
            to <= chars.len(),
            trim_end(chars@, from as int, to as int) == trim_end(chars@, from as int, i as int),
        decreases i,
    {
        i = i - 1;
    }
    i
}

/// The depth of a line: the number of tabs that it starts with.
pub fn indentation(line: &str) -> (r: usize)
    ensures
        r == indent_of(line@),
        line@.len() <= usize::MAX,
{
    let chars = characters(line);
    skip_tabs_from(&chars, 0)
}

fn read_quoted(line: &str, chars: &Vec<char>, at: usize, end: usize) -> (r: Option<(String, usize)>)
    requires
        chars@ == line@,
        at < end <= chars.len(),
    ensures
        quoted(chars@, at as int, end as int) == match r {
            Some((text, behind)) => Some((text@, behind as int)),
            None => None,
        },
        r matches Some((_, behind)) ==> at < behind <= end,
{
    let close: usize = find_quote_from(chars, at + 1);
    if close < end {
        Some((piece(line, at + 1, close), close + 1))
    } else {
        None
    }
}

fn has_if_at(chars: &Vec<char>, at: usize, end: usize) -> (r: bool)
    requires
        at <= end <= chars.len(),
    ensures
        r == has_if(chars@, at as int, end as int),
{
    end - at > 2 && chars[at] == 'i' && chars[at + 1] == 'f' && is_space_char(chars[at + 2])
}

fn has_jump_at(chars: &Vec<char>, at: usize, end: usize) -> (r: bool)
    requires
        at <= end <= chars.len(),
    ensures
        r == has_jump(chars@, at as int, end as int),
{
    end - at > 4 && chars[at] == 'j' && chars[at + 1] == 'u' && chars[at + 2] == 'm' && chars[at
        + 3] == 'p' && (is_space_char(chars[at + 4]) || chars[at + 4] == '"')
}

fn read_dialogue(line: &str, chars: &Vec<char>, start: usize, end: usize) -> (r: Option<Item>)
    requires
        chars@ == line@,
        start < end <= chars.len(),
    ensures
        dialogue_of(chars@, start as int, end as int) == match r {
            Some(item) => Some(item@),
            None => None,
        },
{
    match read_quoted(line, chars, start, end) {
        Some((first, behind)) => {
            let next: usize = skip_spaces_from(chars, behind);
            if next >= end {
                Some(Item::Dialogue { speaker: None, text: first })
            } else if chars[next] == '"' {
                match read_quoted(line, chars, next, end) {
                    Some((second, last)) => if skip_spaces_from(chars, last) >= end {
                        Some(Item::Dialogue { speaker: Some(first), text: second })
                    } else {
                        None
                    },
                    None => None,
                }
            } else {
                None
            }
        },
        None => None,
    }
}

fn read_choice(line: &str, chars: &Vec<char>, at: usize, end: usize) -> (r: Option<Item>)
    requires
        chars@ == line@,
        at <= end <= chars.len(),
        at < end ==> !is_space(chars[end - 1]),
    ensures
        choice_of(chars@, at as int, end as int) == match r {
            Some(item) => Some(item@),
            None => None,
        },
{
    let open: usize = skip_spaces_from(chars, at);
    if open < end && chars[open] == '"' {
        match read_quoted(line, chars, open, end) {
            Some((text, behind)) => {
                let next: usize = skip_spaces_from(chars, behind);
                if next >= end {
                    Some(Item::Choice { text, condition: None })
                } else if has_if_at(chars, next, end) {
                    let from: usize = skip_spaces_from(chars, next + 2);
                    proof {
                        lemma_skip_spaces_stops(chars@, next + 2, end - 1);
                    }
                    Some(Item::Choice { text, condition: Some(piece(line, from, end)) })
                } else {
                    None
                }
            },
            None => None,
        }
    } else {
        None
    }
}

fn read_condition(line: &str, chars: &Vec<char>, at: usize, end: usize) -> (r: Option<Item>)
    requires
        chars@ == line@,
        at < end <= chars.len(),
        !is_space(chars[end - 1]),
    ensures
        condition_of(chars@, at as int, end as int) == match r {
            Some(item) => Some(item@),
            None => None,
        },
{
    let from: usize = skip_spaces_from(chars, at);
    proof {
        lemma_skip_spaces_stops(chars@, at as int, end - 1);
    }
    let to: usize = trim_end_to(chars, from, end - 1);
    if chars[end - 1] == ':' && from < to {
        Some(Item::Condition { expression: piece(line, from, to) })
    } else {
        None
    }
}

fn read_jump(line: &str, chars: &Vec<char>, at: usize, end: usize) -> (r: Option<Item>)
    requires
        chars@ == line@,
        at <= end <= chars.len(),
    ensures
        jump_of(chars@, at as int, end as int) == match r {
            Some(item) => Some(item@),
            None => None,
        },
{
    let open: usize = skip_spaces_from(chars, at);
    if open < end && chars[open] == '"' {
        match read_quoted(line, chars, open, end) {
            Some((target, behind)) => if skip_spaces_from(chars, behind) >= end {
                Some(Item::Jump { target })
            } else {
                None
            },
            None => None,
        }
    } else {
        None
    }
}

fn read_assign(line: &str, chars: &Vec<char>, start: usize, end: usize) -> (r: Option<Item>)
    requires
        chars@ == line@,
        start < end <= chars.len(),
    ensures
        assign_of(chars@, start as int, end as int) == match r {
            Some(item) => Some(item@),
            None => None,
        },
{
    let name_end: usize = skip_identifier_from(chars, start);
    let sign: usize = skip_spaces_from(chars, name_end);
    if !starts_identifier_char(chars[start]) || sign >= end || chars[sign] != '=' {
        return None;
    }
    let from: usize = skip_spaces_from(chars, sign + 1);
    if from < end && chars[from] != '=' {
        Some(
            Item::Assign {
                variable: piece(line, start, name_end),
                expression: piece(line, from, end),
            },
        )
    } else {
        None
    }
}

/// Skipping spaces stops at a character that is none.
proof fn lemma_skip_spaces_stops(s: Seq<char>, from: int, stop: int)
    requires
        0 <= from <= stop < s.len(),
        !is_space(s[stop]),
    ensures
        skip_spaces(s, from) <= stop,
    decreases stop - from,
{
    if from < stop && is_space(s[from]) {
        lemma_skip_spaces_stops(s, from + 1, stop);
    }
}

/// Reads what a line says. `None` if it is none of the forms of a line.
pub fn parse_item(line: &str) -> (r: Option<Item>)
    ensures
        item_of(line@) == match r {
            Some(item) => Some(item@),
            None => None,
        },
{
    let chars = characters(line);
    let start: usize = skip_spaces_from(&chars, 0);
    let end: usize = trim_end_to(&chars, start, chars.len());
    if start >= end {
        Some(Item::Blank)
    } else if chars[start] == '"' {
        read_dialogue(line, &chars, start, end)
    } else if end - start > 1 && chars[start] == '-' && chars[start + 1] == '-' {
        read_choice(line, &chars, start + 2, end)
    } else if has_if_at(&chars, start, end) {
        read_condition(line, &chars, start + 2, end)
    } else if has_jump_at(&chars, start, end) {
        read_jump(line, &chars, start + 4, end)
    } else {
        read_assign(line, &chars, start, end)
    }
}

} // verus!
