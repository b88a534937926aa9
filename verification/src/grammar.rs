//! The grammar, as functions over a text and a position in it.
//!
//! A text is a sequence of characters, and every position is counted in
//! characters. Each rule looks at the text from a position onwards and either
//! matches a prefix of what is there, giving a value and the position just
//! behind the match, or fails with a kind and the position of the failure.

use vstd::prelude::*;
use crate::error::ErrorKind;
use crate::value::{EntryView, ValueView};

verus! {

/// What a rule makes of a text at a position.
pub ghost enum Outcome<T> {
    /// The rule matched: `value` is what it read, `end` is where it stopped.
    Match { value: T, end: int },
    /// The rule failed at `offset`.
    Fail { kind: ErrorKind, offset: int },
}

/// Insignificant whitespace: space, tab, line feed, carriage return.
pub open spec fn is_space(c: char) -> bool {
    c == ' ' || c == '\t' || c == '\n' || c == '\r'
}

/// The ten decimal digits.
pub open spec fn is_digit(c: char) -> bool {
    '0' <= c && c <= '9'
}

/// The characters that may follow a backslash inside a string.
pub open spec fn is_escapable(c: char) -> bool {
    c == '\\' || c == '"' || c == 'n'
}

/// Whether the text holds the character `c` at position `i`.
pub open spec fn at(s: Seq<char>, i: int, c: char) -> bool {
    0 <= i < s.len() && s[i] == c
}

/// The failure of a rule that needs a character at `i` and finds none that
/// fits: the text has ended there, or holds something else.
pub open spec fn missing<T>(s: Seq<char>, i: int) -> Outcome<T> {
    Outcome::Fail {
        kind: if i >= s.len() {
            ErrorKind::UnexpectedEndOfInput
        } else {
            ErrorKind::UnexpectedToken
        },
        offset: i,
    }
}

/// The first position from `i` on that holds no whitespace.
pub open spec fn skip_spaces(s: Seq<char>, i: int) -> int
    decreases s.len() - i,
{
    if 0 <= i < s.len() && is_space(s[i]) {
        skip_spaces(s, i + 1)
    } else {
        i
    }
}

/// The first position from `i` on that holds no digit.
pub open spec fn digits_end(s: Seq<char>, i: int) -> int
    decreases s.len() - i,
{
    if 0 <= i < s.len() && is_digit(s[i]) {
        digits_end(s, i + 1)
    } else {
        i
    }
}

/// One digit or more, and nothing else.
pub open spec fn is_digits(t: Seq<char>) -> bool {
    t.len() > 0 && forall|k: int| 0 <= k < t.len() ==> is_digit(#[trigger] t[k])
}

/// The number that a sequence of digits spells in base ten.
pub open spec fn decimal_value(digits: Seq<char>) -> int
    decreases digits.len(),
{
    if digits.len() == 0 {
        0
    } else {
        decimal_value(digits.drop_last()) * 10 + (digits.last() as int - '0' as int)
    }
}

/// The rest of a string literal whose content began at `from`, read from `i`
/// on: plain characters and two-character escapes up to the closing quote.
/// The content is the text between the quotes exactly as written.
pub open spec fn string_tail(s: Seq<char>, from: int, i: int) -> Outcome<Seq<char>>
    decreases s.len() - i,
{
    if !(0 <= i < s.len()) {
        missing(s, i)
    } else if s[i] == '"' {
        Outcome::Match { value: s.subrange(from, i), end: i + 1 }
    } else if s[i] == '\\' {
        if i + 1 < s.len() && is_escapable(s[i + 1]) {
            string_tail(s, from, i + 2)
        } else {
            missing(s, i + 1)
        }
    } else {
        string_tail(s, from, i + 1)
    }
}

/// A string literal: a quote, the content, a quote.
pub open spec fn string_rule(s: Seq<char>, i: int) -> Outcome<Seq<char>> {
    if at(s, i, '"') {
        string_tail(s, i + 1, i + 1)
    } else {
        missing(s, i)
    }
}

/// A decimal literal: digits, a point, digits, none of the three left out.
pub open spec fn float_rule(s: Seq<char>, i: int) -> Outcome<ValueView> {
    let point = digits_end(s, i);
    let end = digits_end(s, point + 1);
    if point == i {
        missing(s, i)
    } else if !at(s, point, '.') {
        missing(s, point)
    } else if end == point + 1 {
        missing(s, end)
    } else {
        Outcome::Match {
            value: ValueView::Float {
                whole: s.subrange(i, point),
                frac: s.subrange(point + 1, end),
            },
            end,
        }
    }
}

/// An integer literal: one digit or more, spelling a number that a signed
/// 32-bit integer can hold. A larger number is an overflow, reported at the
/// literal's first digit.
pub open spec fn int_rule(s: Seq<char>, i: int) -> Outcome<ValueView> {
    let end = digits_end(s, i);
    if end == i {
        missing(s, i)
    } else if decimal_value(s.subrange(i, end)) > i32::MAX {
        Outcome::Fail { kind: ErrorKind::NumberOverflow, offset: i }
    } else {
        Outcome::Match { value: ValueView::Int(decimal_value(s.subrange(i, end))), end }
    }
}

/// The outcome `o` with its value passed through `f`.
pub open spec fn map_outcome<A, B>(o: Outcome<A>, f: spec_fn(A) -> B) -> Outcome<B> {
    match o {
        Outcome::Match { value, end } => Outcome::Match { value: f(value), end },
        Outcome::Fail { kind, offset } => Outcome::Fail { kind, offset },
    }
}

/// The outcome `o` of reading the rest of a sequence, with the items read
/// before it put in front.
pub open spec fn prepend<T>(front: Seq<T>, o: Outcome<Seq<T>>) -> Outcome<Seq<T>> {
    map_outcome(o, |rest: Seq<T>| front + rest)
}

/// A value: the first of decimal literal, integer literal, string, object
/// and list that fits at `i`. A digit commits to a number and a quote to a
/// string; where nothing fits, the failure is that of the list rule, the last
/// one tried.
pub open spec fn value_rule(s: Seq<char>, i: int) -> Outcome<ValueView>
    decreases s.len() - i, 2int,
{
    if float_rule(s, i) is Match {
        float_rule(s, i)
    } else if 0 <= i < s.len() && is_digit(s[i]) {
        int_rule(s, i)
    } else if at(s, i, '"') {
        map_outcome(string_rule(s, i), |t: Seq<char>| ValueView::Text(t))
    } else if at(s, skip_spaces(s, i), '{') {
        map_outcome(object_rule(s, i), |e: Seq<EntryView>| ValueView::Object(e))
    } else {
        map_outcome(list_rule(s, i), |v: Seq<ValueView>| ValueView::List(v))
    }
}

/// An object: whitespace, `{`, entries with a comma between each two, `}`,
/// whitespace. Between the braces of an empty object only whitespace may
/// stand.
pub open spec fn object_rule(s: Seq<char>, i: int) -> Outcome<Seq<EntryView>>
    decreases s.len() - i, 1int,
{
    let open = skip_spaces(s, i);
    let next = skip_spaces(s, open + 1);
    if !at(s, open, '{') {
        missing(s, open)
    } else if at(s, next, '}') {
        Outcome::Match { value: Seq::empty(), end: skip_spaces(s, next + 1) }
    } else {
        proof {
            lemma_skip_spaces_bounds(s, i);
        }
        entries_rule(s, open + 1)
    }
}

/// The entries of an object from `i` on, the closing brace and the
/// whitespace behind it. `i` is the position behind the opening brace or
/// behind a comma, so an entry has to follow.
///
/// An entry always ends behind its start (`laws::lemma_entry_advances`), so
/// the test `i < end` is always met: it is there to let the recursion be seen
/// to end.
pub open spec fn entries_rule(s: Seq<char>, i: int) -> Outcome<Seq<EntryView>>
    decreases s.len() - i, 1int,
{
    match entry_rule(s, i) {
        Outcome::Fail { kind, offset } => Outcome::Fail { kind, offset },
        Outcome::Match { value: first, end } => {
            if at(s, end, '}') {
                Outcome::Match { value: seq![first], end: skip_spaces(s, end + 1) }
            } else if at(s, end, ',') && i < end {
                prepend(seq![first], entries_rule(s, end + 1))
            } else {
                missing(s, end)
            }
        },
    }
}

/// An entry: whitespace, the key (a string literal), whitespace, `:`,
/// whitespace, the value, whitespace.
pub open spec fn entry_rule(s: Seq<char>, i: int) -> Outcome<EntryView>
    decreases s.len() - i, 0int,
{
    let start = skip_spaces(s, i);
    match string_rule(s, start) {
        Outcome::Fail { kind, offset } => Outcome::Fail { kind, offset },
        Outcome::Match { value: key, end: key_end } => {
            let colon = skip_spaces(s, key_end);
            if at(s, colon, ':') {
                proof {
                    lemma_skip_spaces_bounds(s, i);
                    lemma_string_tail_bounds(s, start + 1, start + 1);
                    lemma_skip_spaces_bounds(s, key_end);
                    lemma_skip_spaces_bounds(s, colon + 1);
                }
                match value_rule(s, skip_spaces(s, colon + 1)) {
                    Outcome::Fail { kind, offset } => Outcome::Fail { kind, offset },
                    Outcome::Match { value, end } => Outcome::Match {
                        value: EntryView { key, value },
                        end: skip_spaces(s, end),
                    },
                }
            } else {
                missing(s, colon)
            }
        },
    }
}

/// A list: whitespace, `[`, whitespace, values with a comma between each
/// two, whitespace, `]`, whitespace. Whitespace may stand on both sides of a
/// comma.
pub open spec fn list_rule(s: Seq<char>, i: int) -> Outcome<Seq<ValueView>>
    decreases s.len() - i, 1int,
{
    let open = skip_spaces(s, i);
    let next = skip_spaces(s, open + 1);
    if !at(s, open, '[') {
        missing(s, open)
    } else if at(s, next, ']') {
        Outcome::Match { value: Seq::empty(), end: skip_spaces(s, next + 1) }
    } else {
        proof {
            lemma_skip_spaces_bounds(s, i);
            lemma_skip_spaces_bounds(s, open + 1);
        }
        elements_rule(s, next)
    }
}

/// The elements of a list from `i` on, the closing bracket and the
/// whitespace behind it. `i` is the position of the first character behind
/// the opening bracket, or behind a comma, that is no whitespace, so a value
/// has to follow.
///
/// A value always ends behind its start (`laws::lemma_value_advances`), so
/// the test `i < end` is always met: it is there to let the recursion be seen
/// to end.
pub open spec fn elements_rule(s: Seq<char>, i: int) -> Outcome<Seq<ValueView>>
    decreases s.len() - i, 3int,
{
    match value_rule(s, i) {
        Outcome::Fail { kind, offset } => Outcome::Fail { kind, offset },
        Outcome::Match { value: first, end } => {
            let close = skip_spaces(s, end);
            if at(s, close, ']') {
                Outcome::Match { value: seq![first], end: skip_spaces(s, close + 1) }
            } else if at(s, close, ',') && i < end {
                proof {
                    lemma_skip_spaces_bounds(s, end);
                    lemma_skip_spaces_bounds(s, close + 1);
                }
                prepend(seq![first], elements_rule(s, skip_spaces(s, close + 1)))
            } else {
                missing(s, close)
            }
        },
    }
}

/// What parsing a whole text gives: the entries of its top-level object, or
/// the failure.
pub ghost enum Document {
    Entries(Seq<EntryView>),
    Fail { kind: ErrorKind, offset: int },
}

/// A document: one object, with nothing but whitespace before and behind it.
pub open spec fn document_rule(s: Seq<char>) -> Document {
    match object_rule(s, 0) {
        Outcome::Fail { kind, offset } => Document::Fail { kind, offset },
        Outcome::Match { value, end } => {
            if end < s.len() {
                Document::Fail { kind: ErrorKind::TrailingInput, offset: end }
            } else {
                Document::Entries(value)
            }
        },
    }
}

/// Skipping whitespace never moves backwards nor, from inside the text, past
/// its end, and stops at a character that is no whitespace.
pub proof fn lemma_skip_spaces_bounds(s: Seq<char>, i: int)
    ensures
        i <= skip_spaces(s, i),
        0 <= i <= s.len() ==> skip_spaces(s, i) <= s.len(),
        0 <= skip_spaces(s, i) < s.len() ==> !is_space(s[skip_spaces(s, i)]),
        skip_spaces(s, skip_spaces(s, i)) == skip_spaces(s, i),
    decreases s.len() - i,
{
    if 0 <= i < s.len() && is_space(s[i]) {
        lemma_skip_spaces_bounds(s, i + 1);
    }
}

/// Reading digits never moves backwards nor, from inside the text, past its
/// end.
pub proof fn lemma_digits_end_bounds(s: Seq<char>, i: int)
    ensures
        i <= digits_end(s, i),
        0 <= i <= s.len() ==> digits_end(s, i) <= s.len(),
        forall|k: int| i <= k < digits_end(s, i) && 0 <= i ==> is_digit(#[trigger] s[k]),
    decreases s.len() - i,
{
    if 0 <= i < s.len() && is_digit(s[i]) {
        lemma_digits_end_bounds(s, i + 1);
    }
}

/// A string literal's rest, where it matches, ends behind the position it
/// was read from and inside the text, just behind a quote, and its content is
/// all that stands between `from` and that quote.
pub proof fn lemma_string_tail_bounds(s: Seq<char>, from: int, i: int)
    ensures
        string_tail(s, from, i) matches Outcome::Match { value, end } ==> 0 <= i < end <= s.len()
            && s[end - 1] == '"' && value == s.subrange(from, end - 1),
        string_tail(s, from, i) matches Outcome::Fail { kind, offset } ==> i <= offset,
    decreases s.len() - i,
{
    if 0 <= i < s.len() && s[i] != '"' {
        if s[i] == '\\' {
            if i + 1 < s.len() && is_escapable(s[i + 1]) {
                lemma_string_tail_bounds(s, from, i + 2);
            }
        } else {
            lemma_string_tail_bounds(s, from, i + 1);
        }
    }
}

} // verus!
