use ordered_json::{from_json, parse_string, Decimal, Entry, Value};

fn decimal(whole: &str, frac: &str) -> Value {
    Value::Float(Decimal { whole: whole.to_string(), frac: frac.to_string() })
}

fn as_f64(value: &Value) -> f64 {
    match value {
        Value::Float(d) => format!("{}.{}", d.whole, d.frac).parse::<f64>().unwrap(),
        other => panic!("not a decimal: {:?}", other),
    }
}

#[test]
fn test_parse_empty_json() {
    let json = r#"
            {
            }
        "#;
    let from_json = from_json(json);
    let entries = from_json.unwrap();
    assert_eq!(entries.len(), 0);
}

#[test]
fn test_parse_simple_json() {
    let json = r#"
            {
                "key1": 1,
                "key2": 2.0
            }
        "#;
    let from_json = from_json(json);
    let entries = from_json.unwrap();
    assert_eq!(entries.len(), 2);
    assert_eq!(entries[0].key, "key1");
    assert_eq!(entries[0].value, Value::Int(1));
    assert_eq!(entries[1].key, "key2");
    assert_eq!(entries[1].value, decimal("2", "0"));
    assert_eq!(as_f64(&entries[1].value), 2.0);
}

#[test]
fn test_parse_json() {
    let json = r#"
            {
                "key1": 1,
                "key2": 2.0,
                "key3": "value3",
                "key4": {
                    "key5": 5
                }
            }
        "#;
    let from_json = from_json(json);
    let entries = from_json.unwrap();
    assert_eq!(entries.len(), 4);
    assert_eq!(entries[0].key, "key1");
    assert_eq!(entries[0].value, Value::Int(1));
    assert_eq!(entries[1].key, "key2");
    assert_eq!(entries[1].value, decimal("2", "0"));
    assert_eq!(as_f64(&entries[1].value), 2.0);
    assert_eq!(entries[2].key, "key3");
    assert_eq!(entries[2].value, Value::Text("value3".to_string()));
    assert_eq!(entries[3].key, "key4");
    assert_eq!(
        entries[3].value,
        Value::Object(vec![Entry {
            key: "key5".to_string(),
            value: Value::Int(5)
        }])
    );
}

#[test]
fn test_parse_complex_json() {
    let input = r#"
        {
            "glossary": {
                "title": "example glossary",
                "GlossDiv": {
                    "title": "S",
                    "GlossList": {
                        "GlossEntry": {
                            "ID": "SGML",
                            "SortAs": "SGML",
                            "GlossTerm": "Standard Generalized Markup Language",
                            "Acronym": "SGML",
                            "Abbrev": "ISO 8879:1986",
                            "GlossDef": {
                                "para": "A meta-markup language, used to create markup languages such as DocBook.",
                                "GlossSeeAlso": ["GML", "XML"]
                            },
                            "GlossSee": "markup"
                        }
                    }
                }
            }
        }
    "#;
    let from_json = from_json(input);
    let entries = from_json.unwrap();
    assert_eq!(entries.len(), 1);
    assert_eq!(entries[0].key, "glossary");
    assert_eq!(
        entries[0].value,
        Value::Object(vec![Entry {
            key: "title".to_string(),
            value: Value::Text("example glossary".to_string())
        }, Entry {
            key: "GlossDiv".to_string(),
            value: Value::Object(vec![Entry {
                key: "title".to_string(),
                value: Value::Text("S".to_string())
            }, Entry {
                key: "GlossList".to_string(),
                value: Value::Object(vec![Entry {
                    key: "GlossEntry".to_string(),
                    value: Value::Object(vec![
                        Entry {
                            key: "ID".to_string(),
                            value: Value::Text("SGML".to_string())
                        },
                        Entry {
                            key: "SortAs".to_string(),
                            value: Value::Text("SGML".to_string())
                        },
                        Entry {
                            key: "GlossTerm".to_string(),
                            value: Value::Text("Standard Generalized Markup Language".to_string())
                        },
                        Entry {
                            key: "Acronym".to_string(),
                            value: Value::Text("SGML".to_string())
                        },
                        Entry {
                            key: "Abbrev".to_string(),
                            value: Value::Text("ISO 8879:1986".to_string())
                        },
                        Entry {
                            key: "GlossDef".to_string(),
                            value: Value::Object(vec![Entry {
                                key: "para".to_string(),
                                value: Value::Text("A meta-markup language, used to create markup languages such as DocBook.".to_string())
                            }, Entry {
                                key: "GlossSeeAlso".to_string(),
                                value: Value::List(vec![
                                    Value::Text("GML".to_string()),
                                    Value::Text("XML".to_string())
                                ])
                            }])
                        },
                        Entry {
                            key: "GlossSee".to_string(),
                            value: Value::Text("markup".to_string())
                        }
                    ])
                }])
            }])
        }])
    );
}

#[test]
fn test_parse_string() {
    let input = r#""abc""#;
    let result = parse_string(input);
    assert_eq!(result.unwrap(), ("", "abc".to_string()));
}

#[test]
fn test_parse_string_with_escape() {
    let input = r#""a\"bc""#;
    let result = parse_string(input);
    assert_eq!(result.unwrap(), ("", r#"a\"bc"#.to_string()));
}

#[test]
fn empty_object_with_any_whitespace() {
    for text in ["{}", " {}", "{ }", "{} ", "\t{\r\n}\n", "  \n{ \t \r }  \t"] {
        assert_eq!(from_json(text), Ok(vec![]));
    }
}

#[test]
fn entries_keep_their_order() {
    let entries = from_json(r#"{"key1": 1, "key2": 2.0}"#).unwrap();
    assert_eq!(
        entries,
        vec![
            Entry { key: "key1".to_string(), value: Value::Int(1) },
            Entry { key: "key2".to_string(), value: decimal("2", "0") },
        ]
    );
}

#[test]
fn fourth_entry_is_a_nested_object() {
    let entries =
        from_json(r#"{"key1": 1, "key2": 2.0, "key3": "value3", "key4": {"key5": 5}}"#).unwrap();
    assert_eq!(
        entries[3].value,
        Value::Object(vec![Entry { key: "key5".to_string(), value: Value::Int(5) }])
    );
}

#[test]
fn duplicate_keys_are_kept() {
    let entries = from_json(r#"{"a": 1, "a": 2}"#).unwrap();
    assert_eq!(
        entries,
        vec![
            Entry { key: "a".to_string(), value: Value::Int(1) },
            Entry { key: "a".to_string(), value: Value::Int(2) },
        ]
    );
}

#[test]
fn four_levels_with_a_list_at_the_leaf() {
    let entries = from_json(r#"{"a":{"b":{"c":{"d":["x","y"]}}}}"#).unwrap();
    let leaf = Value::List(vec![Value::Text("x".to_string()), Value::Text("y".to_string())]);
    let d = Value::Object(vec![Entry { key: "d".to_string(), value: leaf }]);
    let c = Value::Object(vec![Entry { key: "c".to_string(), value: d }]);
    let b = Value::Object(vec![Entry { key: "b".to_string(), value: c }]);
    assert_eq!(entries, vec![Entry { key: "a".to_string(), value: b }]);
}

#[test]
fn lists_may_be_empty_mixed_and_nested() {
    let entries = from_json(r#"{"l": [ ], "m": [1 , 2.5,"t" ,{"k":[]}, [[3]] ] }"#).unwrap();
    assert_eq!(entries.len(), 2);
    assert_eq!(entries[0].value, Value::List(vec![]));
    assert_eq!(
        entries[1].value,
        Value::List(vec![
            Value::Int(1),
            decimal("2", "5"),
            Value::Text("t".to_string()),
            Value::Object(vec![Entry { key: "k".to_string(), value: Value::List(vec![]) }]),
            Value::List(vec![Value::List(vec![Value::Int(3)])]),
        ])
    );
}

#[test]
fn deep_nesting_is_read() {
    let depth = 300;
    let mut text = String::new();
    for _ in 0..depth {
        text.push_str("{\"k\":[");
    }
    text.push('7');
    for _ in 0..depth {
        text.push_str("]}");
    }
    let mut entries = from_json(&text).unwrap();
    for _ in 1..depth {
        assert_eq!(entries.len(), 1);
        let entry = entries.pop().unwrap();
        assert_eq!(entry.key, "k");
        let mut items = match entry.value {
            Value::List(items) => items,
            other => panic!("not a list: {:?}", other),
        };
        assert_eq!(items.len(), 1);
        entries = match items.pop().unwrap() {
            Value::Object(inner) => inner,
            other => panic!("not an object: {:?}", other),
        };
    }
    assert_eq!(entries[0].value, Value::List(vec![Value::Int(7)]));
}

#[test]
fn text_without_whitespace_reads_back() {
    let entries = from_json(r#"{"a":[1,2.5,"x\n",{"b":{}}],"a":7,"":[]}"#).unwrap();
    assert_eq!(
        entries,
        vec![
            Entry {
                key: "a".to_string(),
                value: Value::List(vec![
                    Value::Int(1),
                    decimal("2", "5"),
                    Value::Text(r#"x\n"#.to_string()),
                    Value::Object(vec![Entry {
                        key: "b".to_string(),
                        value: Value::Object(vec![])
                    }]),
                ])
            },
            Entry { key: "a".to_string(), value: Value::Int(7) },
            Entry { key: String::new(), value: Value::List(vec![]) },
        ]
    );
}

#[test]
fn whitespace_between_tokens_is_ignored() {
    let plain = from_json(r#"{"k":[1,{"x":"y"}],"f":0.5}"#).unwrap();
    let spaced =
        from_json(" \n{ \"k\"\t:\r\n[ 1 , { \"x\" : \"y\" } ] , \"f\" : 0.5 } \n").unwrap();
    assert_eq!(plain, spaced);
    assert_eq!(plain.len(), 2);
}
