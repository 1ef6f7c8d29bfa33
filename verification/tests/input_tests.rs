use polo::fact::Value;
use polo::input::{parse_i64, parse_value};

fn read(s: &str) -> Value {
    parse_value(s, s.parse::<f64>().ok().map(|f| f.to_bits()))
}

#[test]
fn parse_i64_agrees_with_std() {
    let cases = [
        "0", "-0", "+0", "42", "-42", "+42", "", "-", "+", "--1", "+-1", "1a", " 1", "1 ",
        "9223372036854775807", "9223372036854775808", "-9223372036854775808",
        "-9223372036854775809", "000000000000000000000123", "99999999999999999999999",
        "١٢", "0x10",
    ];
    for s in cases {
        assert_eq!(parse_i64(s), s.parse::<i64>().ok(), "input {:?}", s);
    }
}

#[test]
fn values_read_from_text() {
    assert!(matches!(read("null"), Value::Null));
    assert!(matches!(read("true"), Value::Bool(true)));
    assert!(matches!(read("false"), Value::Bool(false)));
    assert!(matches!(read("-17"), Value::Int(-17)));
    assert!(matches!(read("2.5"), Value::Float(b) if b == 2.5f64.to_bits()));
    assert!(matches!(read("1e3"), Value::Float(b) if b == 1000.0f64.to_bits()));
    assert!(matches!(read("{\"a\": [1, 2]}"), Value::Json(ref j) if j == "{\"a\":[1,2]}"));
    assert!(matches!(read("[true]"), Value::Json(ref j) if j == "[true]"));
    assert!(matches!(read("{broken"), Value::Str(ref s) if s == "{broken"));
    assert!(matches!(read("\"q\""), Value::Str(ref s) if s == "\"q\""));
    assert!(matches!(read("alice"), Value::Str(ref s) if s == "alice"));
    assert!(matches!(read("NULL"), Value::Str(ref s) if s == "NULL"));
}
