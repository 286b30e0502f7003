use napaxi_codex::json::{Json, JsonNumber};

fn to_json(v: &serde_json::Value) -> Json {
    match v {
        serde_json::Value::Null => Json::Null,
        serde_json::Value::Bool(b) => Json::Bool(*b),
        serde_json::Value::Number(n) => {
            if let Some(u) = n.as_u64() {
                Json::Number(JsonNumber::PosInt(u))
            } else if let Some(i) = n.as_i64() {
                Json::Number(JsonNumber::NegInt(i))
            } else {
                Json::Number(JsonNumber::Float(n.to_string()))
            }
        }
        serde_json::Value::String(s) => Json::Str(s.clone()),
        serde_json::Value::Array(a) => Json::Array(a.iter().map(to_json).collect()),
        serde_json::Value::Object(m) => {
            Json::Object(m.iter().map(|(k, x)| (k.clone(), to_json(x))).collect())
        }
    }
}

#[test]
fn compact_and_pretty_text_match_serde_json() {
    let samples = [
        r#"{"a": [], "b": {}, "c": [1, -2, 3.5, true, null], "d": {"e": "x"}}"#,
        r#"["\u0001\u001f\u007f/\\\"", "\b\f\n\r\t", "中文 😀", 18446744073709551615, -9223372036854775808]"#,
        r#"[[[]], [{}], {"k": [{"z": 0}]}]"#,
        r#""plain""#,
        "0.1",
    ];
    for text in samples {
        let value: serde_json::Value = serde_json::from_str(text).unwrap();
        let doc = to_json(&value);
        assert_eq!(doc.to_text(), serde_json::to_string(&value).unwrap(), "compact {text}");
        assert_eq!(doc.to_pretty_text(), serde_json::to_string_pretty(&value).unwrap(), "pretty {text}");
    }
}

#[test]
fn lookups_take_members_and_kinds() {
    let value: serde_json::Value = serde_json::from_str(r#"{"s": "t", "n": 7, "m": -3, "b": false, "a": [1]}"#).unwrap();
    let doc = to_json(&value);
    assert_eq!(doc.get("s").and_then(|x| x.as_str()).map(|s| s.as_str()), Some("t"));
    assert_eq!(doc.get("n").and_then(|x| x.as_u64()), Some(7));
    assert_eq!(doc.get("m").and_then(|x| x.as_i64()), Some(-3));
    assert_eq!(doc.get("n").and_then(|x| x.as_i64()), Some(7));
    assert_eq!(doc.get("b").and_then(|x| x.as_bool()), Some(false));
    assert_eq!(doc.get("a").and_then(|x| x.as_array()).map(|a| a.len()), Some(1));
    assert!(doc.get("missing").is_none());
    assert!(Json::Null.is_null());
    assert!(Json::Array(Vec::new()).get("s").is_none());
}
