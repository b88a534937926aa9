//! The text of a tree, and the proof that parsing it gives the tree back:
//! whatever the nesting, every entry and element returns in its place,
//! duplicate keys included.
//!
//! The text is written with one run of whitespace, the gap, in every place
//! where the grammar lets whitespace stand; with an empty gap it is the
//! canonical text, which holds no whitespace at all. Whatever the gap, the
//! same tree is read. These texts exist only in proofs: the library writes
//! no text.

use vstd::prelude::*;
use crate::grammar::{
    at, decimal_value, digits_end, document_rule, elements_rule, entries_rule, entry_rule,
    is_digit, is_digits, is_escapable, is_space, lemma_skip_spaces_bounds, object_rule,
    skip_spaces, string_rule, string_tail, value_rule, Document, Outcome,
};
use crate::laws::{
    lemma_entry_advances, lemma_skip_spaces_run, lemma_value_advances, lemma_value_misfit,
};
use crate::value::{EntryView, ValueView};

verus! {

/// The character of a digit's value.
pub open spec fn digit_char(d: int) -> char {
    if d == 0 {
        '0'
    } else if d == 1 {
        '1'
    } else if d == 2 {
        '2'
    } else if d == 3 {
        '3'
    } else if d == 4 {
        '4'
    } else if d == 5 {
        '5'
    } else if d == 6 {
        '6'
    } else if d == 7 {
        '7'
    } else if d == 8 {
        '8'
    } else {
        '9'
    }
}

/// The digits of a number that is not negative, without leading zeros.
pub open spec fn digits_of(n: int) -> Seq<char>
    decreases n,
{
    if n < 10 {
        seq![digit_char(n)]
    } else {
        digits_of(n / 10).push(digit_char(n % 10))
    }
}

/// Whether `t`, from position `k` on, can stand between the quotes of a
/// string literal: no quote and no backslash but in an escape.
pub open spec fn is_content(t: Seq<char>, k: int) -> bool
    decreases t.len() - k,
{
    if !(0 <= k < t.len()) {
        true
    } else if t[k] == '"' {
        false
    } else if t[k] == '\\' {
        k + 1 < t.len() && is_escapable(t[k + 1]) && is_content(t, k + 2)
    } else {
        is_content(t, k + 1)
    }
}

/// Whether a tree is one that some text spells: its integers lie between
/// zero and the largest signed 32-bit integer, its decimals are digits on
/// both sides, and its keys and texts can stand between quotes.
pub open spec fn is_writable(v: ValueView) -> bool
    decreases v,
{
    match v {
        ValueView::Int(n) => 0 <= n <= i32::MAX,
        ValueView::Float { whole, frac } => is_digits(whole) && is_digits(frac),
        ValueView::Text(t) => is_content(t, 0),
        ValueView::Object(entries) => forall|k: int|
            0 <= k < entries.len() ==> is_content((#[trigger] entries[k]).key, 0) && is_writable(
                entries[k].value,
            ),
        ValueView::List(items) => forall|k: int|
            0 <= k < items.len() ==> is_writable(#[trigger] items[k]),
    }
}

/// A string literal with the content `t`.
pub open spec fn quoted(t: Seq<char>) -> Seq<char> {
    seq!['"'] + (t + seq!['"'])
}

/// The text of a value, written with the gap `g`.
pub open spec fn value_text(v: ValueView, g: Seq<char>) -> Seq<char>
    decreases v, 0nat,
{
    match v {
        ValueView::Int(n) => digits_of(n),
        ValueView::Float { whole, frac } => whole + (seq!['.'] + frac),
        ValueView::Text(t) => quoted(t),
        ValueView::Object(entries) => g + (seq!['{'] + (if entries.len() == 0 {
            g + (seq!['}'] + g)
        } else {
            entries_text(entries, 0, g)
        })),
        ValueView::List(items) => g + (seq!['['] + (g + (if items.len() == 0 {
            seq![']'] + g
        } else {
            elements_text(items, 0, g)
        }))),
    }
}

/// The text of the entries from the `k`th on, with a comma between each two
/// and the closing brace behind the last, written with the gap `g`.
pub open spec fn entries_text(entries: Seq<EntryView>, k: int, g: Seq<char>) -> Seq<char>
    decreases entries, 2 * (entries.len() - k),
{
    if !(0 <= k < entries.len()) {
        seq!['}'] + g
    } else {
        g + (quoted(entries[k].key) + (g + (seq![':'] + (g + (value_text(entries[k].value, g) + (g
            + entries_tail(entries, k, g)))))))
    }
}

/// What follows the `k`th entry: a comma and the entries behind it, or the
/// closing brace.
pub open spec fn entries_tail(entries: Seq<EntryView>, k: int, g: Seq<char>) -> Seq<char>
    decreases entries, 2 * (entries.len() - k) - 1,
{
    if 0 <= k && k + 1 < entries.len() {
        seq![','] + entries_text(entries, k + 1, g)
    } else {
        seq!['}'] + g
    }
}

/// The text of the elements from the `k`th on, with a comma between each two
/// and the closing bracket behind the last, written with the gap `g`.
pub open spec fn elements_text(items: Seq<ValueView>, k: int, g: Seq<char>) -> Seq<char>
    decreases items, 2 * (items.len() - k),
{
    if !(0 <= k < items.len()) {
        seq![']'] + g
    } else {
        value_text(items[k], g) + (g + elements_tail(items, k, g))
    }
}

/// What follows the `k`th element: a comma and the elements behind it, or
/// the closing bracket.
pub open spec fn elements_tail(items: Seq<ValueView>, k: int, g: Seq<char>) -> Seq<char>
    decreases items, 2 * (items.len() - k) - 1,
{
    if 0 <= k && k + 1 < items.len() {
        seq![','] + (g + elements_text(items, k + 1, g))
    } else {
        seq![']'] + g
    }
}

/// Whether the text holds `r` from position `i` on.
pub open spec fn holds(s: Seq<char>, i: int, r: Seq<char>) -> bool {
    0 <= i && i + r.len() <= s.len() && s.subrange(i, i + r.len()) == r
}

/// Whether, from `j` on, the text holds nothing but whitespace up to its
/// end, or up to a comma, a closing brace or a closing bracket: what may
/// stand behind a value.
pub open spec fn closes(s: Seq<char>, j: int) -> bool {
    let next = skip_spaces(s, j);
    next == s.len() || at(s, next, ',') || at(s, next, '}') || at(s, next, ']')
}

/// Whether `g` is whitespace and nothing else.
pub open spec fn is_gap(g: Seq<char>) -> bool {
    forall|k: int| 0 <= k < g.len() ==> is_space(#[trigger] g[k])
}

/// A text that holds two texts joined holds the first and, behind it, the
/// second.
pub proof fn lemma_holds_split(s: Seq<char>, i: int, a: Seq<char>, b: Seq<char>)
    requires
        holds(s, i, a + b),
    ensures
        holds(s, i, a),
        holds(s, i + a.len(), b),
{
    let r = a + b;
    assert(s.subrange(i, i + a.len()) =~= r.subrange(0, a.len() as int));
    assert(r.subrange(0, a.len() as int) =~= a);
    assert(s.subrange(i + a.len(), i + a.len() + b.len()) =~= r.subrange(
        a.len() as int,
        r.len() as int,
    ));
    assert(r.subrange(a.len() as int, r.len() as int) =~= b);
}

/// A text that holds `r` has the characters of `r` in their places.
pub proof fn lemma_holds_index(s: Seq<char>, i: int, r: Seq<char>, k: int)
    requires
        holds(s, i, r),
        0 <= k < r.len(),
    ensures
        s[i + k] == r[k],
{
    assert(s.subrange(i, i + r.len())[k] == s[i + k]);
}

/// A run of `n` digits that no digit follows is read to its end.
pub proof fn lemma_digits_run(s: Seq<char>, i: int, n: int)
    requires
        0 <= i,
        0 <= n,
        i + n <= s.len(),
        forall|k: int| i <= k < i + n ==> is_digit(#[trigger] s[k]),
        i + n == s.len() || !is_digit(s[i + n]),
    ensures
        digits_end(s, i) == i + n,
    decreases n,
{
    if n > 0 {
        lemma_digits_run(s, i + 1, n - 1);
    }
}

/// The digits of a number are digits, and spell the number.
pub proof fn lemma_digits_of(n: int)
    requires
        0 <= n,
    ensures
        is_digits(digits_of(n)),
        decimal_value(digits_of(n)) == n,
    decreases n,
{
    if n < 10 {
        let d = seq![digit_char(n)];
        assert(d.drop_last() =~= Seq::<char>::empty());
        assert(decimal_value(d.drop_last()) == 0);
        assert(d.last() == digit_char(n));
    } else {
        lemma_digits_of(n / 10);
        let d = digits_of(n);
        assert(d.drop_last() =~= digits_of(n / 10));
        assert(d.last() == digit_char(n % 10));
    }
}

/// Content between quotes is read to the closing quote, and read as it is.
pub proof fn lemma_content_reads_back(s: Seq<char>, from: int, t: Seq<char>, k: int)
    requires
        0 <= k <= t.len(),
        is_content(t, k),
        holds(s, from, t + seq!['"']),
    ensures
        string_tail(s, from, from + k) == (Outcome::Match { value: t, end: from + t.len() + 1 }),
    decreases t.len() - k,
{
    let r = t + seq!['"'];
    lemma_holds_index(s, from, r, k);
    if k < t.len() {
        assert(s[from + k] == t[k]);
        if t[k] == '\\' {
            lemma_holds_index(s, from, r, k + 1);
            lemma_content_reads_back(s, from, t, k + 2);
        } else {
            lemma_content_reads_back(s, from, t, k + 1);
        }
    } else {
        lemma_holds_split(s, from, t, seq!['"']);
    }
}

/// A string literal with writable content is read back as that content.
pub proof fn lemma_quoted_reads_back(s: Seq<char>, i: int, t: Seq<char>)
    requires
        is_content(t, 0),
        holds(s, i, quoted(t)),
    ensures
        string_rule(s, i) == (Outcome::Match { value: t, end: i + t.len() + 2 }),
{
    lemma_holds_split(s, i, seq!['"'], t + seq!['"']);
    lemma_holds_index(s, i, seq!['"'], 0);
    lemma_content_reads_back(s, i + 1, t, 0);
}

/// A gap in the text is skipped as whitespace.
pub proof fn lemma_gap_is_skipped(s: Seq<char>, i: int, g: Seq<char>)
    requires
        is_gap(g),
        holds(s, i, g),
    ensures
        skip_spaces(s, i) == skip_spaces(s, i + g.len()),
{
    assert forall|k: int| i <= k < i + g.len() implies is_space(#[trigger] s[k]) by {
        lemma_holds_index(s, i, g, k - i);
    }
    lemma_skip_spaces_run(s, i, i + g.len());
}

/// Whether every entry from the `k`th on has a writable key and value.
pub open spec fn entries_writable(entries: Seq<EntryView>, k: int) -> bool {
    forall|j: int|
        k <= j < entries.len() ==> is_content((#[trigger] entries[j]).key, 0) && is_writable(
            entries[j].value,
        )
}

/// Whether every element from the `k`th on is writable.
pub open spec fn elements_writable(items: Seq<ValueView>, k: int) -> bool {
    forall|j: int| k <= j < items.len() ==> is_writable(#[trigger] items[j])
}

/// Whether reading a value at the first character from `i` on that is no
/// whitespace gives `v`, and ends where only whitespace stands between the
/// end and `j`.
pub open spec fn reads_value(s: Seq<char>, i: int, j: int, v: ValueView) -> bool {
    value_rule(s, skip_spaces(s, i)) matches Outcome::Match { value, end } && value == v
        && skip_spaces(s, end) == skip_spaces(s, j)
}

/// Reading a value where its text stands gives the value, whatever the gap
/// that the text was written with.
pub proof fn lemma_value_reads_back(s: Seq<char>, i: int, v: ValueView, g: Seq<char>)
    requires
        is_writable(v),
        is_gap(g),
        holds(s, i, value_text(v, g)),
        closes(s, i + value_text(v, g).len()),
    ensures
        reads_value(s, i, i + value_text(v, g).len(), v),
    decreases v, 0nat,
{
    let text = value_text(v, g);
    let end = i + text.len();
    lemma_skip_spaces_bounds(s, end);
    match v {
        ValueView::Int(n) => {
            lemma_digits_of(n);
            lemma_holds_index(s, i, text, 0);
            assert forall|k: int| i <= k < end implies is_digit(#[trigger] s[k]) by {
                lemma_holds_index(s, i, text, k - i);
            }
            lemma_digits_run(s, i, text.len() as int);
            assert(s.subrange(i, end) == text);
        },
        ValueView::Float { whole, frac } => {
            let point = i + whole.len();
            lemma_holds_split(s, i, whole, seq!['.'] + frac);
            lemma_holds_split(s, point, seq!['.'], frac);
            lemma_holds_index(s, point, seq!['.'], 0);
            lemma_holds_index(s, i, whole, 0);
            assert forall|k: int| i <= k < point implies is_digit(#[trigger] s[k]) by {
                lemma_holds_index(s, i, whole, k - i);
            }
            assert forall|k: int| point + 1 <= k < end implies is_digit(#[trigger] s[k]) by {
                lemma_holds_index(s, point + 1, frac, k - point - 1);
            }
            lemma_digits_run(s, i, whole.len() as int);
            lemma_digits_run(s, point + 1, frac.len() as int);
        },
        ValueView::Text(t) => {
            lemma_holds_index(s, i, text, 0);
            lemma_quoted_reads_back(s, i, t);
        },
        ValueView::Object(entries) => {
            lemma_object_reads_back(s, i, entries, g);
        },
        ValueView::List(items) => {
            let open = i + g.len();
            let inner = if items.len() == 0 {
                seq![']'] + g
            } else {
                elements_text(items, 0, g)
            };
            lemma_holds_split(s, i, g, seq!['['] + (g + inner));
            lemma_holds_split(s, open, seq!['['], g + inner);
            lemma_holds_split(s, open + 1, g, inner);
            lemma_holds_index(s, open, seq!['['], 0);
            lemma_gap_is_skipped(s, i, g);
            lemma_gap_is_skipped(s, open + 1, g);
            assert(skip_spaces(s, open) == open);
            assert(skip_spaces(s, i) == open);
            let first = open + 1 + g.len();
            if items.len() == 0 {
                lemma_holds_split(s, first, seq![']'], g);
                lemma_holds_index(s, first, seq![']'], 0);
                lemma_gap_is_skipped(s, first + 1, g);
                assert(skip_spaces(s, first) == first);
                assert(items =~= Seq::empty());
                lemma_skip_spaces_bounds(s, first + 1);
            } else {
                lemma_elements_read_back(s, first, items, 0, g);
                let next = skip_spaces(s, first);
                if at(s, next, ']') {
                    lemma_value_misfit(s, next);
                }
                assert(items.subrange(0, items.len() as int) =~= items);
            }
        },
    }
}

/// Reading an object where its text stands gives its entries, whatever the
/// gap that the text was written with, and ends behind the whitespace that
/// follows the text.
pub proof fn lemma_object_reads_back(
    s: Seq<char>,
    i: int,
    entries: Seq<EntryView>,
    g: Seq<char>,
)
    requires
        entries_writable(entries, 0),
        is_gap(g),
        holds(s, i, value_text(ValueView::Object(entries), g)),
        closes(s, i + value_text(ValueView::Object(entries), g).len()),
    ensures
        object_rule(s, i) == (Outcome::Match {
            value: entries,
            end: skip_spaces(s, i + value_text(ValueView::Object(entries), g).len()),
        }),
        reads_value(
            s,
            i,
            i + value_text(ValueView::Object(entries), g).len(),
            ValueView::Object(entries),
        ),
    decreases entries, entries.len() + 1,
{
    let text = value_text(ValueView::Object(entries), g);
    let end = i + text.len();
    let open = i + g.len();
    let inner = if entries.len() == 0 {
        g + (seq!['}'] + g)
    } else {
        entries_text(entries, 0, g)
    };
    lemma_holds_split(s, i, g, seq!['{'] + inner);
    lemma_holds_split(s, open, seq!['{'], inner);
    lemma_holds_index(s, open, seq!['{'], 0);
    lemma_gap_is_skipped(s, i, g);
    assert(skip_spaces(s, open) == open);
    lemma_skip_spaces_bounds(s, end);
    if entries.len() == 0 {
        let close = open + 1 + g.len();
        lemma_holds_split(s, open + 1, g, seq!['}'] + g);
        lemma_holds_split(s, close, seq!['}'], g);
        lemma_holds_index(s, close, seq!['}'], 0);
        lemma_gap_is_skipped(s, open + 1, g);
        lemma_gap_is_skipped(s, close + 1, g);
        assert(skip_spaces(s, close) == close);
        assert(entries =~= Seq::empty());
    } else {
        let key = open + 1 + g.len();
        lemma_holds_split(
            s,
            open + 1,
            g,
            quoted(entries[0].key) + (g + (seq![':'] + (g + (value_text(entries[0].value, g) + (g
                + entries_tail(entries, 0, g)))))),
        );
        lemma_holds_split(
            s,
            key,
            quoted(entries[0].key),
            g + (seq![':'] + (g + (value_text(entries[0].value, g) + (g + entries_tail(
                entries,
                0,
                g,
            ))))),
        );
        lemma_holds_index(s, key, quoted(entries[0].key), 0);
        lemma_gap_is_skipped(s, open + 1, g);
        assert(skip_spaces(s, key) == key);
        lemma_entries_read_back(s, open + 1, entries, 0, g);
        assert(entries.subrange(0, entries.len() as int) =~= entries);
    }
}

/// Reading the entries of an object where the text of the entries from the
/// `k`th on stands gives these entries, in their order, and ends behind the
/// whitespace that follows the closing brace.
pub proof fn lemma_entries_read_back(
    s: Seq<char>,
    i: int,
    entries: Seq<EntryView>,
    k: int,
    g: Seq<char>,
)
    requires
        0 <= k < entries.len(),
        entries_writable(entries, k),
        is_gap(g),
        holds(s, i, entries_text(entries, k, g)),
        closes(s, i + entries_text(entries, k, g).len()),
    ensures
        entries_rule(s, i) == (Outcome::Match {
            value: entries.subrange(k, entries.len() as int),
            end: skip_spaces(s, i + entries_text(entries, k, g).len()),
        }),
    decreases entries, entries.len() - k,
{
    let entry = entries[k];
    let key = quoted(entry.key);
    let value = value_text(entry.value, g);
    let tail = entries_tail(entries, k, g);
    let key_at = i + g.len();
    let key_end = key_at + key.len();
    let colon = key_end + g.len();
    let from = colon + 1 + g.len();
    let value_end = from + value.len();
    let close = value_end + g.len();
    let last = i + entries_text(entries, k, g).len();
    lemma_holds_split(s, i, g, key + (g + (seq![':'] + (g + (value + (g + tail))))));
    lemma_holds_split(s, key_at, key, g + (seq![':'] + (g + (value + (g + tail)))));
    lemma_holds_split(s, key_end, g, seq![':'] + (g + (value + (g + tail))));
    lemma_holds_split(s, colon, seq![':'], g + (value + (g + tail)));
    lemma_holds_split(s, colon + 1, g, value + (g + tail));
    lemma_holds_split(s, from, value, g + tail);
    lemma_holds_split(s, value_end, g, tail);
    lemma_holds_index(s, key_at, key, 0);
    lemma_holds_index(s, colon, seq![':'], 0);
    lemma_holds_index(s, close, tail, 0);
    lemma_gap_is_skipped(s, i, g);
    lemma_gap_is_skipped(s, key_end, g);
    lemma_gap_is_skipped(s, colon + 1, g);
    lemma_gap_is_skipped(s, value_end, g);
    assert(skip_spaces(s, key_at) == key_at);
    assert(skip_spaces(s, colon) == colon);
    assert(skip_spaces(s, close) == close);
    lemma_quoted_reads_back(s, key_at, entry.key);
    lemma_value_reads_back(s, from, entry.value, g);
    assert(entry_rule(s, i) == (Outcome::Match { value: entry, end: close }));
    lemma_entry_advances(s, i);
    lemma_skip_spaces_bounds(s, last);
    if k + 1 < entries.len() {
        lemma_holds_split(s, close, seq![','], entries_text(entries, k + 1, g));
        lemma_entries_read_back(s, close + 1, entries, k + 1, g);
        assert(seq![entry] + entries.subrange(k + 1, entries.len() as int) =~= entries.subrange(
            k,
            entries.len() as int,
        ));
    } else {
        lemma_holds_split(s, close, seq!['}'], g);
        lemma_gap_is_skipped(s, close + 1, g);
        assert(seq![entry] =~= entries.subrange(k, entries.len() as int));
    }
}

/// Reading the elements of a list where the text of the elements from the
/// `k`th on stands gives these elements, in their order, and ends behind the
/// whitespace that follows the closing bracket.
pub proof fn lemma_elements_read_back(
    s: Seq<char>,
    i: int,
    items: Seq<ValueView>,
    k: int,
    g: Seq<char>,
)
    requires
        0 <= k < items.len(),
        elements_writable(items, k),
        is_gap(g),
        holds(s, i, elements_text(items, k, g)),
        closes(s, i + elements_text(items, k, g).len()),
    ensures
        elements_rule(s, skip_spaces(s, i)) == (Outcome::Match {
            value: items.subrange(k, items.len() as int),
            end: skip_spaces(s, i + elements_text(items, k, g).len()),
        }),
    decreases items, items.len() - k,
{
    let item = items[k];
    let value = value_text(item, g);
    let tail = elements_tail(items, k, g);
    let value_end = i + value.len();
    let close = value_end + g.len();
    let last = i + elements_text(items, k, g).len();
    lemma_holds_split(s, i, value, g + tail);
    lemma_holds_split(s, value_end, g, tail);
    lemma_holds_index(s, close, tail, 0);
    lemma_gap_is_skipped(s, value_end, g);
    assert(skip_spaces(s, close) == close);
    lemma_value_reads_back(s, i, item, g);
    lemma_value_advances(s, skip_spaces(s, i));
    lemma_skip_spaces_bounds(s, last);
    if k + 1 < items.len() {
        lemma_holds_split(s, close, seq![','], g + elements_text(items, k + 1, g));
        lemma_holds_split(s, close + 1, g, elements_text(items, k + 1, g));
        lemma_gap_is_skipped(s, close + 1, g);
        lemma_elements_read_back(s, close + 1 + g.len(), items, k + 1, g);
        assert(seq![item] + items.subrange(k + 1, items.len() as int) =~= items.subrange(
            k,
            items.len() as int,
        ));
    } else {
        lemma_holds_split(s, close, seq![']'], g);
        lemma_gap_is_skipped(s, close + 1, g);
        assert(seq![item] =~= items.subrange(k, items.len() as int));
    }
}

/// Parsing the text of an object gives its entries back: each in its place,
/// nested values to any depth, and equal keys as often as they occur. The
/// whitespace that the text was written with makes no difference.
pub proof fn lemma_document_reads_back(entries: Seq<EntryView>, g: Seq<char>)
    requires
        is_writable(ValueView::Object(entries)),
        is_gap(g),
    ensures
        document_rule(value_text(ValueView::Object(entries), g)) == Document::Entries(entries),
{
    let s = value_text(ValueView::Object(entries), g);
    assert(s.subrange(0, s.len() as int) =~= s);
    lemma_object_reads_back(s, 0, entries, g);
}

} // verus!
