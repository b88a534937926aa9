//! The parser: one executable function for each rule of the grammar, each
//! proved to give exactly the outcome that the rule gives.

use vstd::prelude::*;
use crate::error::{ErrorKind, ParseError};
use crate::grammar;
use crate::grammar::{
    Document, Outcome,
};
use crate::input::Input;
use crate::value::{entries_view, values_view, Decimal, Entry, EntryView, Value, ValueView};

verus! {

/// A parse error as a failed outcome.
pub open spec fn failure<T>(e: ParseError) -> Outcome<T> {
    Outcome::Fail { kind: e.kind, offset: e.offset as int }
}

/// What a result that carries a string says, as an outcome.
pub open spec fn text_outcome(r: Result<(String, usize), ParseError>) -> Outcome<Seq<char>> {
    match r {
        Ok((t, end)) => Outcome::Match { value: t@, end: end as int },
        Err(e) => failure(e),
    }
}

/// What a result that carries a value says, as an outcome.
pub open spec fn value_outcome(r: Result<(Value, usize), ParseError>) -> Outcome<ValueView> {
    match r {
        Ok((v, end)) => Outcome::Match { value: v@, end: end as int },
        Err(e) => failure(e),
    }
}

/// What a result that carries an entry says, as an outcome.
pub open spec fn entry_outcome(r: Result<(Entry, usize), ParseError>) -> Outcome<EntryView> {
    match r {
        Ok((e, end)) => Outcome::Match { value: e@, end: end as int },
        Err(e) => failure(e),
    }
}

/// What a result that carries entries says, as an outcome.
pub open spec fn entries_outcome(r: Result<(Vec<Entry>, usize), ParseError>) -> Outcome<
    Seq<EntryView>,
> {
    match r {
        Ok((v, end)) => Outcome::Match { value: entries_view(v@), end: end as int },
        Err(e) => failure(e),
    }
}

/// What a result that carries values says, as an outcome.
pub open spec fn values_outcome(r: Result<(Vec<Value>, usize), ParseError>) -> Outcome<
    Seq<ValueView>,
> {
    match r {
        Ok((v, end)) => Outcome::Match { value: values_view(v@), end: end as int },
        Err(e) => failure(e),
    }
}

fn is_space(c: char) -> (b: bool)
    ensures
        b == grammar::is_space(c),
{
    c == ' ' || c == '\t' || c == '\n' || c == '\r'
}

fn is_digit(c: char) -> (b: bool)
    ensures
        b == grammar::is_digit(c),
{
    '0' <= c && c <= '9'
}

fn is_escapable(c: char) -> (b: bool)
    ensures
        b == grammar::is_escapable(c),
{
    c == '\\' || c == '"' || c == 'n'
}

/// The error of a rule that needs a character at `pos` and finds none that
/// fits.
fn error_at(inp: &Input, pos: usize) -> (e: ParseError)
    ensures
        e.offset == pos,
        e.kind == if pos >= inp@.len() {
            ErrorKind::UnexpectedEndOfInput
        } else {
            ErrorKind::UnexpectedToken
        },
{
    if pos >= inp.len() {
        ParseError { kind: ErrorKind::UnexpectedEndOfInput, offset: pos }
    } else {
        ParseError { kind: ErrorKind::UnexpectedToken, offset: pos }
    }
}

/// The first position from `pos` on that holds no whitespace.
pub fn skip_spaces(inp: &Input, pos: usize) -> (end: usize)
    ensures
        end == grammar::skip_spaces(inp@, pos as int),
        pos <= end,
        pos <= inp@.len() ==> end <= inp@.len(),
{
    let n = inp.len();
    let mut i = pos;
    while i < n && is_space_at(inp, i)
        invariant
            n == inp@.len(),
            pos <= i,
            pos <= n ==> i <= n,
            grammar::skip_spaces(inp@, i as int) == grammar::skip_spaces(inp@, pos as int),
        decreases n - i,
    {
        i += 1;
    }
    i
}

fn is_space_at(inp: &Input, i: usize) -> (b: bool)
    ensures
        b == (i < inp@.len() && grammar::is_space(inp@[i as int])),
{
    match inp.get(i) {
        Some(c) => is_space(c),
        None => false,
    }
}

fn is_digit_at(inp: &Input, i: usize) -> (b: bool)
    ensures
        b == (i < inp@.len() && grammar::is_digit(inp@[i as int])),
{
    match inp.get(i) {
        Some(c) => is_digit(c),
        None => false,
    }
}

/// The first position from `pos` on that holds no digit.
pub fn digits_end(inp: &Input, pos: usize) -> (end: usize)
    ensures
        end == grammar::digits_end(inp@, pos as int),
        pos <= end,
        pos <= inp@.len() ==> end <= inp@.len(),
{
    let n = inp.len();
    let mut i = pos;
    while i < n && is_digit_at(inp, i)
        invariant
            n == inp@.len(),
            pos <= i,
            pos <= n ==> i <= n,
            grammar::digits_end(inp@, i as int) == grammar::digits_end(inp@, pos as int),
        decreases n - i,
    {
        i += 1;
    }
    i
}

/// Reads a string literal at `pos`: the content between its quotes, with
/// every escape kept as written, and the position behind the closing quote.
pub fn parse_text(inp: &Input, pos: usize) -> (r: Result<(String, usize), ParseError>)
    ensures
        text_outcome(r) == grammar::string_rule(inp@, pos as int),
        r matches Ok((_, end)) ==> pos < end <= inp@.len(),
{
    if !inp.has(pos, '"') {
        return Err(error_at(inp, pos));
    }
    let n = inp.len();
    let start = pos + 1;
    let mut i = start;
    loop
        invariant
            n == inp@.len(),
            pos < n,
            start == pos + 1,
            start <= i <= n,
            grammar::string_tail(inp@, start as int, i as int) == grammar::string_rule(
                inp@,
                pos as int,
            ),
        decreases n - i,
    {
        match inp.get(i) {
            None => {
                return Err(error_at(inp, i));
            },
            Some(c) => {
                if c == '"' {
                    return Ok((inp.slice(start, i), i + 1));
                } else if c == '\\' {
                    let escaped = match inp.get(i + 1) {
                        Some(e) => is_escapable(e),
                        None => false,
                    };
                    if !escaped {
                        return Err(error_at(inp, i + 1));
                    }
                    i += 2;
                } else {
                    i += 1;
                }
            },
        }
    }
}

/// Reads a string literal at the start of `x`: what is left of `x` behind
/// the literal, and the content between its quotes, with every escape kept
/// as written.
pub fn parse_string(x: &str) -> (r: Result<(&str, String), ParseError>)
    ensures
        match grammar::string_rule(x@, 0) {
            Outcome::Match { value, end } => r matches Ok((rest, text)) && text@ == value && rest@
                == x@.subrange(end, x@.len() as int),
            Outcome::Fail { kind, offset } => r matches Err(e) && e.kind == kind && e.offset
                == offset,
        },
{
    let inp = Input::new(x);
    match parse_text(&inp, 0) {
        Ok((text, end)) => Ok((inp.rest(end), text)),
        Err(e) => Err(e),
    }
}

/// Reads the key of an entry at `pos`: a string literal.
pub fn parse_key(inp: &Input, pos: usize) -> (r: Result<(String, usize), ParseError>)
    ensures
        text_outcome(r) == grammar::string_rule(inp@, pos as int),
        r matches Ok((_, end)) ==> pos < end <= inp@.len(),
{
    parse_text(inp, pos)
}

/// Reads a decimal literal at `pos`: the digits on both sides of its point.
pub fn parse_float(inp: &Input, pos: usize) -> (r: Result<(Value, usize), ParseError>)
    ensures
        value_outcome(r) == grammar::float_rule(inp@, pos as int),
        r matches Ok((_, end)) ==> pos < end <= inp@.len(),
        r matches Ok((v, _)) ==> v matches Value::Float(d) && d.is_well_formed(),
{
    let point = digits_end(inp, pos);
    if point == pos {
        return Err(error_at(inp, pos));
    }
    if !inp.has(point, '.') {
        return Err(error_at(inp, point));
    }
    let end = digits_end(inp, point + 1);
    if end == point + 1 {
        return Err(error_at(inp, end));
    }
    proof {
        grammar::lemma_digits_end_bounds(inp@, pos as int);
        grammar::lemma_digits_end_bounds(inp@, point + 1);
    }
    let whole = inp.slice(pos, point);
    let frac = inp.slice(point + 1, end);
    Ok((Value::Float(Decimal { whole, frac }), end))
}

/// Reads an integer literal at `pos`. A literal whose number no signed
/// 32-bit integer can hold is an overflow, however many digits it has.
pub fn parse_int(inp: &Input, pos: usize) -> (r: Result<(Value, usize), ParseError>)
    ensures
        value_outcome(r) == grammar::int_rule(inp@, pos as int),
        r matches Ok((_, end)) ==> pos < end <= inp@.len(),
{
    let end = digits_end(inp, pos);
    if end == pos {
        return Err(error_at(inp, pos));
    }
    proof {
        grammar::lemma_digits_end_bounds(inp@, pos as int);
    }
    let limit: i64 = 2147483648;
    let mut acc: i64 = 0;
    let mut i = pos;
    while i < end
        invariant
            pos <= i <= end <= inp@.len(),
            limit == 2147483648,
            forall|k: int| pos <= k < end ==> grammar::is_digit(#[trigger] inp@[k]),
            0 <= acc <= limit,
            acc == if grammar::decimal_value(inp@.subrange(pos as int, i as int)) < limit {
                grammar::decimal_value(inp@.subrange(pos as int, i as int))
            } else {
                limit as int
            },
        decreases end - i,
    {
        let c = match inp.get(i) {
            Some(c) => c,
            None => '0',
        };
        let digit: i64 = (c as u32 - '0' as u32) as i64;
        proof {
            let next = inp@.subrange(pos as int, i + 1);
            assert(next.drop_last() =~= inp@.subrange(pos as int, i as int));
            assert(next.last() == inp@[i as int]);
            assert(grammar::is_digit(inp@[i as int]));
            assert(digit == c as int - '0' as int);
        }
        acc = acc * 10 + digit;
        if acc > limit {
            acc = limit;
        }
        i += 1;
    }
    if acc >= limit {
        Err(ParseError { kind: ErrorKind::NumberOverflow, offset: pos })
    } else {
        Ok((Value::Int(acc as i32), end))
    }
}

/// An object value has the models of its entries, in order, as its model.
pub proof fn lemma_object_view(entries: Vec<Entry>)
    ensures
        Value::Object(entries)@ == ValueView::Object(entries_view(entries@)),
{
    assert(Value::Object(entries)@->Object_0 =~= entries_view(entries@));
}

/// A list value has the models of its elements, in order, as its model.
pub proof fn lemma_list_view(items: Vec<Value>)
    ensures
        Value::List(items)@ == ValueView::List(values_view(items@)),
{
    assert(Value::List(items)@->List_0 =~= values_view(items@));
}

/// Putting items in front of an outcome twice is putting both fronts there
/// at once.
pub proof fn lemma_prepend_twice<T>(front: Seq<T>, first: T, o: Outcome<Seq<T>>)
    ensures
        grammar::prepend(front, grammar::prepend(seq![first], o)) == grammar::prepend(
            front.push(first),
            o,
        ),
        grammar::prepend(front, Outcome::Match { value: seq![first], end: 0 })
            == (Outcome::Match { value: front.push(first), end: 0 }),
{
    assert(front + seq![first] =~= front.push(first));
    match o {
        Outcome::Match { value, end } => {
            assert(front + (seq![first] + value) =~= front.push(first) + value);
        },
        Outcome::Fail { .. } => {},
    }
}

/// Reads a value at `pos`: a decimal literal, an integer literal, a string,
/// an object or a list, whichever fits first.
pub fn parse_value(inp: &Input, pos: usize) -> (r: Result<(Value, usize), ParseError>)
    ensures
        value_outcome(r) == grammar::value_rule(inp@, pos as int),
        r matches Ok((_, end)) ==> pos < end <= inp@.len(),
    decreases inp@.len() - pos, 2int,
{
    if is_digit_at(inp, pos) {
        match parse_float(inp, pos) {
            Ok(found) => Ok(found),
            Err(_) => parse_int(inp, pos),
        }
    } else if inp.has(pos, '"') {
        match parse_text(inp, pos) {
            Ok((text, end)) => Ok((Value::Text(text), end)),
            Err(e) => Err(e),
        }
    } else if inp.has(skip_spaces(inp, pos), '{') {
        match parse_json(inp, pos) {
            Ok((entries, end)) => {
                proof {
                    lemma_object_view(entries);
                }
                Ok((Value::Object(entries), end))
            },
            Err(e) => Err(e),
        }
    } else {
        match parse_list(inp, pos) {
            Ok((items, end)) => {
                proof {
                    lemma_list_view(items);
                }
                Ok((Value::List(items), end))
            },
            Err(e) => Err(e),
        }
    }
}

/// Reads an object at `pos`: its entries in source order, and the position
/// behind the whitespace that follows its closing brace.
pub fn parse_json(inp: &Input, pos: usize) -> (r: Result<(Vec<Entry>, usize), ParseError>)
    ensures
        entries_outcome(r) == grammar::object_rule(inp@, pos as int),
        r matches Ok((_, end)) ==> pos < end <= inp@.len(),
    decreases inp@.len() - pos, 1int,
{
    let open = skip_spaces(inp, pos);
    if !inp.has(open, '{') {
        return Err(error_at(inp, open));
    }
    let next = skip_spaces(inp, open + 1);
    let mut entries: Vec<Entry> = Vec::new();
    if inp.has(next, '}') {
        assert(entries_view(entries@) =~= Seq::empty());
        return Ok((entries, skip_spaces(inp, next + 1)));
    }
    let mut cur = open + 1;
    proof {
        let whole = grammar::entries_rule(inp@, cur as int);
        assert(entries_view(entries@) =~= Seq::empty());
        match whole {
            Outcome::Match { value, end } => {
                assert(Seq::<EntryView>::empty() + value =~= value);
            },
            Outcome::Fail { .. } => {},
        }
    }
    loop
        invariant
            pos <= open < cur <= inp@.len(),
            grammar::prepend(entries_view(entries@), grammar::entries_rule(inp@, cur as int))
                == grammar::object_rule(inp@, pos as int),
        decreases inp@.len() - cur,
    {
        match parse_entry(inp, cur) {
            Err(e) => {
                return Err(e);
            },
            Ok((entry, end)) => {
                proof {
                    lemma_prepend_twice(
                        entries_view(entries@),
                        entry@,
                        grammar::entries_rule(inp@, end + 1),
                    );
                    assert(entries_view(entries@.push(entry)) =~= entries_view(entries@).push(
                        entry@,
                    ));
                }
                entries.push(entry);
                if inp.has(end, '}') {
                    return Ok((entries, skip_spaces(inp, end + 1)));
                }
                if !inp.has(end, ',') {
                    return Err(error_at(inp, end));
                }
                cur = end + 1;
            },
        }
    }
}

/// Reads an entry at `pos`: its key and its value, and the position behind
/// the whitespace that follows the value.
pub fn parse_entry(inp: &Input, pos: usize) -> (r: Result<(Entry, usize), ParseError>)
    ensures
        entry_outcome(r) == grammar::entry_rule(inp@, pos as int),
        r matches Ok((_, end)) ==> pos < end <= inp@.len(),
    decreases inp@.len() - pos, 0int,
{
    let start = skip_spaces(inp, pos);
    let (key, key_end) = match parse_key(inp, start) {
        Ok(found) => found,
        Err(e) => {
            return Err(e);
        },
    };
    let colon = skip_spaces(inp, key_end);
    if !inp.has(colon, ':') {
        return Err(error_at(inp, colon));
    }
    let value_start = skip_spaces(inp, colon + 1);
    match parse_value(inp, value_start) {
        Ok((value, end)) => Ok((Entry { key, value }, skip_spaces(inp, end))),
        Err(e) => Err(e),
    }
}

/// Reads a list at `pos`: its elements in source order, and the position
/// behind the whitespace that follows its closing bracket.
pub fn parse_list(inp: &Input, pos: usize) -> (r: Result<(Vec<Value>, usize), ParseError>)
    ensures
        values_outcome(r) == grammar::list_rule(inp@, pos as int),
        r matches Ok((_, end)) ==> pos < end <= inp@.len(),
    decreases inp@.len() - pos, 1int,
{
    let open = skip_spaces(inp, pos);
    if !inp.has(open, '[') {
        return Err(error_at(inp, open));
    }
    let next = skip_spaces(inp, open + 1);
    let mut items: Vec<Value> = Vec::new();
    if inp.has(next, ']') {
        assert(values_view(items@) =~= Seq::empty());
        return Ok((items, skip_spaces(inp, next + 1)));
    }
    let mut cur = next;
    proof {
        let whole = grammar::elements_rule(inp@, cur as int);
        assert(values_view(items@) =~= Seq::empty());
        match whole {
            Outcome::Match { value, end } => {
                assert(Seq::<ValueView>::empty() + value =~= value);
            },
            Outcome::Fail { .. } => {},
        }
    }
    loop
        invariant
            pos <= open < cur <= inp@.len(),
            grammar::prepend(values_view(items@), grammar::elements_rule(inp@, cur as int))
                == grammar::list_rule(inp@, pos as int),
        decreases inp@.len() - cur,
    {
        match parse_value(inp, cur) {
            Err(e) => {
                return Err(e);
            },
            Ok((item, end)) => {
                let close = skip_spaces(inp, end);
                proof {
                    lemma_prepend_twice(
                        values_view(items@),
                        item@,
                        grammar::elements_rule(
                            inp@,
                            grammar::skip_spaces(inp@, close + 1),
                        ),
                    );
                    assert(values_view(items@.push(item)) =~= values_view(items@).push(item@));
                }
                items.push(item);
                if inp.has(close, ']') {
                    return Ok((items, skip_spaces(inp, close + 1)));
                }
                if !inp.has(close, ',') {
                    return Err(error_at(inp, close));
                }
                cur = skip_spaces(inp, close + 1);
            },
        }
    }
}

/// Parses a whole text: one object, with nothing but whitespace before and
/// behind it. Gives the object's entries in source order, duplicate keys
/// included, or the first failure.
pub fn from_json(json: &str) -> (r: Result<Vec<Entry>, ParseError>)
    ensures
        match grammar::document_rule(json@) {
            Document::Entries(entries) => r matches Ok(found) && entries_view(found@) == entries,
            Document::Fail { kind, offset } => r matches Err(e) && e.kind == kind && e.offset
                == offset,
        },
{
    let inp = Input::new(json);
    match parse_json(&inp, 0) {
        Ok((entries, end)) => {
            if end < inp.len() {
                Err(ParseError { kind: ErrorKind::TrailingInput, offset: end })
            } else {
                Ok(entries)
            }
        },
        Err(e) => Err(e),
    }
}

} // verus!
