//! What holds of the grammar for every text.

use vstd::prelude::*;
use crate::error::ErrorKind;
use crate::value::ValueView;
use crate::grammar::{
    at, decimal_value, digits_end, document_rule, elements_rule, entries_rule, entry_rule,
    float_rule, int_rule, is_digit, is_digits, is_space, lemma_digits_end_bounds,
    lemma_skip_spaces_bounds, lemma_string_tail_bounds, list_rule, object_rule, skip_spaces,
    string_rule, value_rule, Document, Outcome,
};

verus! {

/// An outcome that lies where a rule read from `i` may leave it: a match
/// ends behind `i` and inside the text, a failure is found at `i` or behind
/// it and, if `i` is a position of the text, no further than the text's end.
pub open spec fn in_bounds<T>(s: Seq<char>, i: int, o: Outcome<T>) -> bool {
    match o {
        Outcome::Match { value, end } => i < end <= s.len(),
        Outcome::Fail { kind, offset } => i <= offset && (0 <= i <= s.len() ==> offset
            <= s.len()),
    }
}

/// A match that ends where no whitespace follows: all of it was taken along.
pub open spec fn settled<T>(s: Seq<char>, o: Outcome<T>) -> bool {
    o matches Outcome::Match { value, end } ==> skip_spaces(s, end) == end
}

/// A string literal never matches the empty text: it moves forward, and a
/// failure lies at or behind where it began.
pub proof fn lemma_string_in_bounds(s: Seq<char>, i: int)
    ensures
        in_bounds(s, i, string_rule(s, i)),
{
    if at(s, i, '"') {
        lemma_string_tail_bounds(s, i + 1, i + 1);
        lemma_string_tail_fails_inside(s, i + 1, i + 1);
    }
}

/// Where the rest of a string literal fails, it fails no further than the
/// end of the text.
pub proof fn lemma_string_tail_fails_inside(s: Seq<char>, from: int, i: int)
    requires
        0 <= i <= s.len(),
    ensures
        crate::grammar::string_tail(s, from, i) matches Outcome::Fail { kind, offset } ==> offset
            <= s.len(),
    decreases s.len() - i,
{
    if i < s.len() && s[i] != '"' {
        if s[i] == '\\' {
            if i + 1 < s.len() && crate::grammar::is_escapable(s[i + 1]) {
                lemma_string_tail_fails_inside(s, from, i + 2);
            }
        } else {
            lemma_string_tail_fails_inside(s, from, i + 1);
        }
    }
}

/// The content of a string literal is the text between its two quotes
/// exactly as written: no escape is decoded and no character dropped.
pub proof fn lemma_string_is_verbatim(s: Seq<char>, i: int)
    ensures
        string_rule(s, i) matches Outcome::Match { value, end } ==> 0 <= i < end - 1 < s.len()
            && s[i] == '"' && s[end - 1] == '"' && value == s.subrange(i + 1, end - 1),
{
    if at(s, i, '"') {
        lemma_string_tail_bounds(s, i + 1, i + 1);
    }
}

/// A decimal literal is read as the digits on the two sides of its point:
/// one digit or more on each side, the point between them, and nothing else.
pub proof fn lemma_float_is_two_digit_runs(s: Seq<char>, i: int)
    ensures
        float_rule(s, i) matches Outcome::Match { value, end } ==> value matches ValueView::Float {
            whole,
            frac,
        } && is_digits(whole) && is_digits(frac) && s.subrange(i, end) == whole + seq!['.']
            + frac,
{
    lemma_digits_end_bounds(s, i);
    lemma_digits_end_bounds(s, digits_end(s, i) + 1);
    if float_rule(s, i) is Match {
        let point = digits_end(s, i);
        let end = digits_end(s, point + 1);
        assert(s.subrange(i, end) =~= s.subrange(i, point) + seq!['.'] + s.subrange(
            point + 1,
            end,
        ));
    }
}

/// A number never matches the empty text, and a failure lies inside the
/// bounds.
pub proof fn lemma_number_in_bounds(s: Seq<char>, i: int)
    ensures
        in_bounds(s, i, float_rule(s, i)),
        in_bounds(s, i, int_rule(s, i)),
{
    lemma_digits_end_bounds(s, i);
    lemma_digits_end_bounds(s, digits_end(s, i) + 1);
}

/// Every value ends behind the position it was read from: the rule always
/// moves forward, and its failures lie inside the bounds.
pub proof fn lemma_value_advances(s: Seq<char>, i: int)
    ensures
        in_bounds(s, i, value_rule(s, i)),
    decreases s.len() - i, 2int,
{
    lemma_number_in_bounds(s, i);
    lemma_string_in_bounds(s, i);
    if float_rule(s, i) is Match {
    } else if 0 <= i < s.len() && is_digit(s[i]) {
    } else if at(s, i, '"') {
    } else if at(s, skip_spaces(s, i), '{') {
        lemma_object_advances(s, i);
    } else {
        lemma_list_advances(s, i);
    }
}

/// Every object ends behind the position it was read from, with the
/// whitespace behind its closing brace taken along.
pub proof fn lemma_object_advances(s: Seq<char>, i: int)
    ensures
        in_bounds(s, i, object_rule(s, i)),
        settled(s, object_rule(s, i)),
    decreases s.len() - i, 1int,
{
    let open = skip_spaces(s, i);
    let next = skip_spaces(s, open + 1);
    lemma_skip_spaces_bounds(s, i);
    lemma_skip_spaces_bounds(s, open + 1);
    lemma_skip_spaces_bounds(s, next + 1);
    if at(s, open, '{') && !at(s, next, '}') {
        lemma_entries_advance(s, open + 1);
    }
}

/// The entries of an object, read from `i`, end behind `i`, with the
/// whitespace behind the closing brace taken along.
pub proof fn lemma_entries_advance(s: Seq<char>, i: int)
    ensures
        in_bounds(s, i, entries_rule(s, i)),
        settled(s, entries_rule(s, i)),
    decreases s.len() - i, 1int,
{
    lemma_entry_advances(s, i);
    match entry_rule(s, i) {
        Outcome::Fail { .. } => {},
        Outcome::Match { value, end } => {
            lemma_skip_spaces_bounds(s, end + 1);
            if !at(s, end, '}') && at(s, end, ',') {
                lemma_entries_advance(s, end + 1);
            }
        },
    }
}

/// Every entry ends behind the position it was read from, with the
/// whitespace behind its value taken along. So the test `i < end` in the
/// rule for the entries of an object is always met.
pub proof fn lemma_entry_advances(s: Seq<char>, i: int)
    ensures
        in_bounds(s, i, entry_rule(s, i)),
        settled(s, entry_rule(s, i)),
    decreases s.len() - i, 0int,
{
    let start = skip_spaces(s, i);
    lemma_skip_spaces_bounds(s, i);
    lemma_string_in_bounds(s, start);
    match string_rule(s, start) {
        Outcome::Fail { .. } => {},
        Outcome::Match { value: key, end: key_end } => {
            let colon = skip_spaces(s, key_end);
            lemma_skip_spaces_bounds(s, key_end);
            lemma_skip_spaces_bounds(s, colon + 1);
            if at(s, colon, ':') {
                let from = skip_spaces(s, colon + 1);
                lemma_value_advances(s, from);
                match value_rule(s, from) {
                    Outcome::Fail { .. } => {},
                    Outcome::Match { value, end } => {
                        lemma_skip_spaces_bounds(s, end);
                    },
                }
            }
        },
    }
}

/// Every list ends behind the position it was read from, with the
/// whitespace behind its closing bracket taken along.
pub proof fn lemma_list_advances(s: Seq<char>, i: int)
    ensures
        in_bounds(s, i, list_rule(s, i)),
        settled(s, list_rule(s, i)),
    decreases s.len() - i, 1int,
{
    let open = skip_spaces(s, i);
    let next = skip_spaces(s, open + 1);
    lemma_skip_spaces_bounds(s, i);
    lemma_skip_spaces_bounds(s, open + 1);
    lemma_skip_spaces_bounds(s, next + 1);
    if at(s, open, '[') && !at(s, next, ']') {
        lemma_elements_advance(s, next);
    }
}

/// The elements of a list, read from `i`, end behind `i`, with the
/// whitespace behind the closing bracket taken along. On the way every value
/// ends behind its start, so the test `i < end` in the rule is always met.
pub proof fn lemma_elements_advance(s: Seq<char>, i: int)
    ensures
        in_bounds(s, i, elements_rule(s, i)),
        settled(s, elements_rule(s, i)),
    decreases s.len() - i, 3int,
{
    lemma_value_advances(s, i);
    match value_rule(s, i) {
        Outcome::Fail { .. } => {},
        Outcome::Match { value, end } => {
            let close = skip_spaces(s, end);
            lemma_skip_spaces_bounds(s, end);
            lemma_skip_spaces_bounds(s, close + 1);
            lemma_skip_spaces_bounds(s, skip_spaces(s, close + 1));
            if !at(s, close, ']') && at(s, close, ',') {
                lemma_elements_advance(s, skip_spaces(s, close + 1));
            }
        },
    }
}

/// Whether `outer` fails with the kind and at the offset of `inner`, where
/// `inner` fails.
pub open spec fn same_failure<A, B>(inner: Outcome<A>, outer: Outcome<B>) -> bool {
    inner matches Outcome::Fail { kind, offset } ==> outer == (Outcome::<B>::Fail {
        kind,
        offset,
    })
}

/// A failure is handed upwards as it is, with nothing read in its place: the
/// failure of a nested object or list is that of the value, the failure of a
/// value that of its entry or of the list's elements, the failure of an
/// entry that of the object's entries, and the failure of the top-level
/// object that of the document.
pub proof fn lemma_failures_propagate(s: Seq<char>, i: int)
    ensures
        at(s, skip_spaces(s, i), '{') ==> same_failure(object_rule(s, i), value_rule(s, i)),
        at(s, skip_spaces(s, i), '[') ==> same_failure(list_rule(s, i), value_rule(s, i)),
        same_failure(value_rule(s, i), elements_rule(s, i)),
        same_failure(entry_rule(s, i), entries_rule(s, i)),
        same_failure(string_rule(s, skip_spaces(s, i)), entry_rule(s, i)),
        string_rule(s, skip_spaces(s, i)) matches Outcome::Match { value, end } ==> at(
            s,
            skip_spaces(s, end),
            ':',
        ) ==> same_failure(
            value_rule(s, skip_spaces(s, skip_spaces(s, end) + 1)),
            entry_rule(s, i),
        ),
        entry_rule(s, i) matches Outcome::Match { value, end } ==> at(s, end, ',')
            ==> same_failure(entries_rule(s, end + 1), entries_rule(s, i)),
        value_rule(s, i) matches Outcome::Match { value, end } ==> at(s, skip_spaces(s, end), ',')
            ==> same_failure(
            elements_rule(s, skip_spaces(s, skip_spaces(s, end) + 1)),
            elements_rule(s, i),
        ),
        i == 0 ==> (object_rule(s, i) matches Outcome::Fail { kind, offset } ==> document_rule(s)
            == (Document::Fail { kind, offset })),
{
    lemma_skip_spaces_bounds(s, i);
    lemma_entry_advances(s, i);
    lemma_value_advances(s, i);
}

/// Whitespace in front of an object, a list or an entry changes nothing:
/// each is read as it is read from its first character that is no
/// whitespace.
pub proof fn lemma_leading_whitespace(s: Seq<char>, i: int)
    ensures
        object_rule(s, i) == object_rule(s, skip_spaces(s, i)),
        list_rule(s, i) == list_rule(s, skip_spaces(s, i)),
        entry_rule(s, i) == entry_rule(s, skip_spaces(s, i)),
        entries_rule(s, i) == entries_rule(s, skip_spaces(s, i)),
{
    lemma_skip_spaces_bounds(s, i);
    lemma_entry_advances(s, i);
    lemma_entry_advances(s, skip_spaces(s, i));
}

/// Skipping whitespace from `i` passes every position up to `j` if all the
/// characters between the two are whitespace.
pub proof fn lemma_skip_spaces_run(s: Seq<char>, i: int, j: int)
    requires
        0 <= i <= j <= s.len(),
        forall|k: int| i <= k < j ==> is_space(#[trigger] s[k]),
    ensures
        skip_spaces(s, i) == skip_spaces(s, j),
    decreases j - i,
{
    if i < j {
        lemma_skip_spaces_run(s, i + 1, j);
    }
}

/// A text that holds `{` and, somewhere behind it, `}`, and whitespace in
/// every other place, is the empty object: parsing it gives no entries.
pub proof fn lemma_empty_object(s: Seq<char>, open: int, close: int)
    requires
        0 <= open < close < s.len(),
        s[open] == '{',
        s[close] == '}',
        forall|k: int| 0 <= k < s.len() && k != open && k != close ==> is_space(#[trigger] s[k]),
    ensures
        document_rule(s) == Document::Entries(Seq::empty()),
{
    lemma_skip_spaces_run(s, 0, open);
    lemma_skip_spaces_run(s, open + 1, close);
    lemma_skip_spaces_run(s, close + 1, s.len() as int);
    assert(skip_spaces(s, open) == open);
    assert(skip_spaces(s, close) == close);
    assert(skip_spaces(s, s.len() as int) == s.len());
}

/// Where a value has to stand and the text holds a character that begins
/// none (no digit, quote, brace or bracket, nor whitespace before a brace or
/// bracket), the failure is an unexpected token at that character.
pub proof fn lemma_value_misfit(s: Seq<char>, i: int)
    requires
        0 <= i < s.len(),
        !is_digit(s[i]),
        !is_space(s[i]),
        s[i] != '"',
        s[i] != '{',
        s[i] != '[',
    ensures
        value_rule(s, i) == (Outcome::<ValueView>::Fail {
            kind: ErrorKind::UnexpectedToken,
            offset: i,
        }),
{
}

/// Where a value has to stand and the text has ended, the failure is an
/// unexpected end of input.
pub proof fn lemma_value_at_end(s: Seq<char>, i: int)
    requires
        i >= s.len(),
    ensures
        value_rule(s, i) == (Outcome::<ValueView>::Fail {
            kind: ErrorKind::UnexpectedEndOfInput,
            offset: i,
        }),
{
}

/// Digits that are followed by no point and further digits, and that spell a
/// number above the largest signed 32-bit integer, are an overflow wherever a
/// value is read, reported at the first digit.
pub proof fn lemma_large_integer_overflows(s: Seq<char>, i: int)
    requires
        0 <= i < s.len(),
        is_digit(s[i]),
        float_rule(s, i) is Fail,
        decimal_value(s.subrange(i, digits_end(s, i))) > i32::MAX,
    ensures
        int_rule(s, i) == (Outcome::<ValueView>::Fail {
            kind: ErrorKind::NumberOverflow,
            offset: i,
        }),
        value_rule(s, i) == int_rule(s, i),
{
}

/// An integer literal is read as a value exactly if the number it spells is
/// at most the largest signed 32-bit integer, and then as that number.
pub proof fn lemma_integer_in_range(s: Seq<char>, i: int)
    requires
        0 <= i < s.len(),
        is_digit(s[i]),
        float_rule(s, i) is Fail,
    ensures
        value_rule(s, i) is Match <==> decimal_value(s.subrange(i, digits_end(s, i)))
            <= i32::MAX,
        value_rule(s, i) matches Outcome::Match { value, end } ==> value
            == ValueView::Int(decimal_value(s.subrange(i, end))) && 0
            <= decimal_value(s.subrange(i, end)),
{
    lemma_digits_end_bounds(s, i);
    lemma_digits_end_bounds(s, i + 1);
    lemma_decimal_value_nonnegative(s.subrange(i, digits_end(s, i)));
}

/// Digits spell a number that is not negative.
pub proof fn lemma_decimal_value_nonnegative(digits: Seq<char>)
    requires
        forall|k: int| 0 <= k < digits.len() ==> is_digit(#[trigger] digits[k]),
    ensures
        0 <= decimal_value(digits),
    decreases digits.len(),
{
    if digits.len() > 0 {
        lemma_decimal_value_nonnegative(digits.drop_last());
    }
}

/// Whatever follows a well-formed object, it is whitespace up to the end of
/// the text, or the text is refused for its trailing input, at the first
/// character behind the object that is no whitespace.
pub proof fn lemma_trailing_input(s: Seq<char>)
    requires
        object_rule(s, 0) is Match,
    ensures
        object_rule(s, 0)->end == s.len() ==> document_rule(s) == Document::Entries(
            object_rule(s, 0)->value,
        ),
        object_rule(s, 0)->end != s.len() ==> 0 < object_rule(s, 0)->end < s.len() && !is_space(
            s[object_rule(s, 0)->end],
        ) && document_rule(s) == (Document::Fail {
            kind: ErrorKind::TrailingInput,
            offset: object_rule(s, 0)->end,
        }),
{
    lemma_object_advances(s, 0);
    lemma_skip_spaces_bounds(s, object_rule(s, 0)->end);
}

} // verus!
