use ordered_json::parser::{parse_float, parse_int, parse_list, parse_value, skip_spaces};
use ordered_json::{from_json, parse_string, Decimal, ErrorKind, Input, ParseError, Value};

fn fails(text: &str, kind: ErrorKind, offset: usize) {
    assert_eq!(from_json(text), Err(ParseError { kind, offset }));
}

#[test]
fn missing_value_is_an_unexpected_token() {
    fails(r#"{"a": }"#, ErrorKind::UnexpectedToken, 6);
}

#[test]
fn integer_beyond_32_bits_overflows() {
    fails(r#"{"a": 2147483648}"#, ErrorKind::NumberOverflow, 6);
    fails(r#"{"a": 99999999999999999999999999}"#, ErrorKind::NumberOverflow, 6);
    fails(r#"{"a": [1, 4294967297]}"#, ErrorKind::NumberOverflow, 10);
}

#[test]
fn largest_integer_is_read() {
    let entries = from_json(r#"{"a": 2147483647, "b": 0, "c": 0000000000012}"#).unwrap();
    assert_eq!(entries[0].value, Value::Int(2147483647));
    assert_eq!(entries[1].value, Value::Int(0));
    assert_eq!(entries[2].value, Value::Int(12));
}

#[test]
fn trailing_garbage_is_reported() {
    fails("{}x", ErrorKind::TrailingInput, 2);
    fails("{}  {}", ErrorKind::TrailingInput, 4);
    fails(r#" {"a": 1} ,"#, ErrorKind::TrailingInput, 10);
}

#[test]
fn text_that_ends_early() {
    fails("", ErrorKind::UnexpectedEndOfInput, 0);
    fails("  ", ErrorKind::UnexpectedEndOfInput, 2);
    fails("{", ErrorKind::UnexpectedEndOfInput, 1);
    fails(r#"{"a"#, ErrorKind::UnexpectedEndOfInput, 3);
    fails(r#"{"a\"#, ErrorKind::UnexpectedEndOfInput, 4);
    fails(r#"{"a""#, ErrorKind::UnexpectedEndOfInput, 4);
    fails(r#"{"a": "#, ErrorKind::UnexpectedEndOfInput, 6);
    fails(r#"{"a": 1"#, ErrorKind::UnexpectedEndOfInput, 7);
    fails(r#"{"a": 1,"#, ErrorKind::UnexpectedEndOfInput, 8);
    fails(r#"{"a": [1"#, ErrorKind::UnexpectedEndOfInput, 8);
    fails(r#"{"a": [1, "#, ErrorKind::UnexpectedEndOfInput, 10);
}

#[test]
fn characters_that_do_not_fit() {
    fails("x", ErrorKind::UnexpectedToken, 0);
    fails("[]", ErrorKind::UnexpectedToken, 0);
    fails("{x}", ErrorKind::UnexpectedToken, 1);
    fails(r#"{"a" 1}"#, ErrorKind::UnexpectedToken, 5);
    fails(r#"{"a": 1 "b": 2}"#, ErrorKind::UnexpectedToken, 8);
    fails(r#"{"a": 1,}"#, ErrorKind::UnexpectedToken, 8);
    fails(r#"{"a": 1,, "b": 2}"#, ErrorKind::UnexpectedToken, 8);
    fails(r#"{,"a": 1}"#, ErrorKind::UnexpectedToken, 1);
    fails(r#"{"a": [1,]}"#, ErrorKind::UnexpectedToken, 9);
    fails(r#"{"a": [1 2]}"#, ErrorKind::UnexpectedToken, 9);
    fails(r#"{"a": [,]}"#, ErrorKind::UnexpectedToken, 7);
    fails(r#"{"a": -1}"#, ErrorKind::UnexpectedToken, 6);
    fails(r#"{"a": true}"#, ErrorKind::UnexpectedToken, 6);
    fails(r#"{"a": 1.}"#, ErrorKind::UnexpectedToken, 7);
    fails(r#"{"a": .5}"#, ErrorKind::UnexpectedToken, 6);
    fails(r#"{"a": 1e5}"#, ErrorKind::UnexpectedToken, 7);
    fails(r#"{"a": "\t"}"#, ErrorKind::UnexpectedToken, 8);
    fails(r#"{1: 2}"#, ErrorKind::UnexpectedToken, 1);
}

#[test]
fn offsets_count_characters() {
    let entries = from_json("{\"ключ\": \"值\"}").unwrap();
    assert_eq!(entries[0].key, "ключ");
    assert_eq!(entries[0].value, Value::Text("值".to_string()));
    fails("{\"ключ\": x}", ErrorKind::UnexpectedToken, 9);
    assert_eq!(parse_string("\"é\"ü"), Ok(("ü", "é".to_string())));
}

#[test]
fn escapes_are_kept_as_written() {
    assert_eq!(parse_string(r#""a\nb\\c\"d" rest"#), Ok((" rest", r#"a\nb\\c\"d"#.to_string())));
    assert_eq!(parse_string(r#""""#), Ok(("", String::new())));
    assert_eq!(
        parse_string(r#""a\qb""#),
        Err(ParseError { kind: ErrorKind::UnexpectedToken, offset: 3 })
    );
    assert_eq!(
        parse_string("abc"),
        Err(ParseError { kind: ErrorKind::UnexpectedToken, offset: 0 })
    );
    assert_eq!(
        parse_string(r#""abc"#),
        Err(ParseError { kind: ErrorKind::UnexpectedEndOfInput, offset: 4 })
    );
}

#[test]
fn decimal_is_tried_before_integer() {
    let inp = Input::new("12.50x");
    let expected = Value::Float(Decimal { whole: "12".to_string(), frac: "50".to_string() });
    assert_eq!(parse_value(&inp, 0), Ok((expected, 5)));
    let inp = Input::new("12.x");
    assert_eq!(parse_value(&inp, 0), Ok((Value::Int(12), 2)));
    assert_eq!(parse_int(&inp, 0), Ok((Value::Int(12), 2)));
    assert_eq!(
        parse_float(&inp, 0),
        Err(ParseError { kind: ErrorKind::UnexpectedToken, offset: 3 })
    );
    assert_eq!(
        parse_float(&inp, 3),
        Err(ParseError { kind: ErrorKind::UnexpectedToken, offset: 3 })
    );
}

#[test]
fn rules_read_from_a_position() {
    let inp = Input::new("ab \t\r\n [ 1 ,2 ]  c");
    assert_eq!(inp.len(), 18);
    assert_eq!(inp.get(1), Some('b'));
    assert_eq!(inp.get(18), None);
    assert_eq!(skip_spaces(&inp, 2), 7);
    assert_eq!(skip_spaces(&inp, 40), 40);
    assert_eq!(parse_list(&inp, 2), Ok((vec![Value::Int(1), Value::Int(2)], 17)));
    assert_eq!(parse_value(&inp, 7), Ok((Value::List(vec![Value::Int(1), Value::Int(2)]), 17)));
    assert_eq!(
        parse_value(&inp, 40),
        Err(ParseError { kind: ErrorKind::UnexpectedEndOfInput, offset: 40 })
    );
}

#[test]
fn errors_describe_themselves() {
    let e = from_json("{}x").unwrap_err();
    assert_eq!(e.kind(), ErrorKind::TrailingInput);
    assert_eq!(e.offset(), 2);
    assert_eq!(e.description(), "unexpected input after the top-level object");
    let e = from_json("{").unwrap_err();
    assert_eq!(e.description(), "unexpected end of input");
    let e = from_json("{]").unwrap_err();
    assert_eq!(e.description(), "unexpected token");
    let e = from_json(r#"{"n": 3000000000}"#).unwrap_err();
    assert_eq!(e.description(), "integer literal does not fit in 32 bits");
}
