//! Printing a representable value with a conformant emitter and re-parsing
//! it yields a structurally equal value. The emitter lives here: the library
//! itself does not serialize.

use jsonom::{parse, Value};

fn emit_string(s: &str, out: &mut String) {
    out.push('"');
    for c in s.chars() {
        match c {
            '"' => out.push_str("\\\""),
            '\\' => out.push_str("\\\\"),
            '\n' => out.push_str("\\n"),
            '\r' => out.push_str("\\r"),
            '\t' => out.push_str("\\t"),
            '\u{08}' => out.push_str("\\b"),
            '\u{0C}' => out.push_str("\\f"),
            c if (c as u32) < 0x20 => out.push_str(&format!("\\u{{{:X}}}", c as u32)),
            c => out.push(c),
        }
    }
    out.push('"');
}

fn emit(v: &Value, out: &mut String) {
    match v {
        Value::Null => out.push_str("null"),
        Value::Boolean(true) => out.push_str("true"),
        Value::Boolean(false) => out.push_str("false"),
        Value::Number(n) => out.push_str(&n.to_string()),
        Value::String(s) => emit_string(s, out),
        Value::Array(elems) => {
            out.push('[');
            for (i, e) in elems.iter().enumerate() {
                if i > 0 {
                    out.push(',');
                }
                emit(e, out);
            }
            out.push(']');
        }
        Value::Object(pairs) => {
            out.push('{');
            for (i, (k, val)) in pairs.iter().enumerate() {
                if i > 0 {
                    out.push(',');
                }
                out.push('"');
                out.push_str(k);
                out.push('"');
                out.push(':');
                emit(val, out);
            }
            out.push('}');
        }
    }
}

fn sample() -> Value {
    Value::Object(vec![
        (
            String::from("extremes"),
            Value::Array(vec![
                Value::Number(i64::MIN),
                Value::Number(-1),
                Value::Number(0),
                Value::Number(i64::MAX),
            ]),
        ),
        (
            String::from("texts"),
            Value::Array(vec![
                Value::String(String::new()),
                Value::String(String::from("plain")),
                Value::String(String::from("quote \" backslash \\ tab \t nl \n emoji \u{1F602}")),
            ]),
        ),
        (String::from("flag_1"), Value::Boolean(true)),
        (String::from("flag_2"), Value::Boolean(false)),
        (String::from("nothing"), Value::Null),
        (String::from("empty_obj"), Value::Object(vec![])),
        (String::from("empty_arr"), Value::Array(vec![])),
        (
            String::from("nested"),
            Value::Object(vec![(
                String::from("inner"),
                Value::Array(vec![Value::Object(vec![(
                    String::from("k"),
                    Value::Number(7),
                )])]),
            )]),
        ),
    ])
}

#[test]
fn round_trip_of_representable_values() {
    let v = sample();
    let mut text = String::new();
    emit(&v, &mut text);
    let reparsed = parse(&text).unwrap();
    assert_eq!(reparsed, v);
}

#[test]
fn round_trip_of_array_roots() {
    let v = Value::Array(vec![
        Value::Null,
        Value::Number(14),
        Value::Boolean(true),
        Value::String(String::from("x_1")),
        Value::Array(vec![Value::Number(1)]),
    ]);
    let mut text = String::new();
    emit(&v, &mut text);
    assert_eq!(parse(&text).unwrap(), v);
}
