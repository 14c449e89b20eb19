use tropel_inputs::headers::{headers_in, parse_headers_tolerant, to_handshake_headers};
use tropel_inputs::json::Json;

fn owned(pairs: &[(&str, &str)]) -> Vec<(String, String)> {
    pairs.iter().map(|(k, v)| (k.to_string(), v.to_string())).collect()
}

#[test]
fn an_object_declares_a_header_in_each_entry() {
    let got = parse_headers_tolerant(
        " {\"B\": \"x\", \"A\": 1.5, \"ok\": true, \"nil\": null, \"list\": [1], \"B2\": \"\"}",
    );
    assert_eq!(got, owned(&[("B", "x"), ("A", "1.5"), ("ok", "true"), ("B2", "")]));
}

#[test]
fn a_list_declares_keys_and_values() {
    let got = parse_headers_tolerant(
        r#"[{"key": "A", "value": "1"}, {"value": "2"}, {"key": "", "value": "3"}, {"key": "B"}, {"key": 4, "value": "5"}]"#,
    );
    assert_eq!(got, owned(&[("A", "1"), ("B", "")]));
    assert!(parse_headers_tolerant(r#"[{"key": "A"}, 1]"#).is_empty());
}

#[test]
fn any_other_text_declares_none() {
    for text in ["", "   ", "null", "\"A\"", "{", "{\"A\": \"b\"} x", "7"] {
        assert!(parse_headers_tolerant(text).is_empty(), "{text:?}");
    }
    let doc = Json::parse("{\"A\": \"b\"}").unwrap();
    assert!(headers_in("x", Some(&doc)).is_empty());
    assert!(headers_in("{", None).is_empty());
    assert_eq!(headers_in("{", Some(&doc)), owned(&[("A", "b")]));
}

#[test]
fn a_handshake_takes_valid_headers_by_their_small_names() {
    let got = to_handshake_headers(&owned(&[
        ("X-Token", "1"),
        ("bad name", "2"),
        ("", "3"),
        ("X-Bad", "a\nb"),
        ("x-token", "4\t\u{e9}"),
        ("X-Del", "\u{7f}"),
        ("caf\u{e9}", "5"),
        ("!#$%&'*+-.^_`|~", "6"),
        ("quote\"", "7"),
    ]));
    assert_eq!(got.len(), 2);
    assert_eq!(got.get("x-token").map(|s| s.as_str()), Some("4\t\u{e9}"));
    assert_eq!(got.get("!#$%&'*+-.^_`|~").map(|s| s.as_str()), Some("6"));
    assert!(got.get("X-Token").is_none());
}

#[test]
fn a_header_name_has_a_largest_length() {
    let long = "a".repeat(65535);
    let longer = "a".repeat(65536);
    assert_eq!(to_handshake_headers(&owned(&[(long.as_str(), "1")])).len(), 1);
    assert_eq!(to_handshake_headers(&owned(&[(longer.as_str(), "1")])).len(), 0);
}
