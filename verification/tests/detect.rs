use tropel_inputs::adapter::{
    build_scenario_from_source, has_k6_pattern, is_collection_document, is_postman_collection,
    K6Driver, K6ScriptAdapter,
};
use tropel_inputs::json::Json;
use tropel_inputs::scripts::is_typescript_ext;

#[test]
fn test_detect_export_default() {
    let driver = K6Driver;
    let data = br#"export default function() { http.get("https://example.com"); }"#;
    assert!(driver.detect(data));
}

#[test]
fn driver_test_detect_k6_import() {
    let driver = K6Driver;
    let data = br#"import { check } from "k6"; export default function() {}"#;
    assert!(driver.detect(data));
}

#[test]
fn driver_test_detect_postman_not_k6() {
    let driver = K6Driver;
    let data = br#"{"info":{"name":"Test","schema":"https://schema.getpostman.com/json/collection/v2.1.0/collection.json"},"item":[]}"#;
    assert!(!driver.detect(data), "Postman JSON should not be detected as k6");
}

#[test]
fn test_driver_id() {
    assert_eq!(K6Driver.id(), "k6");
}

#[test]
fn test_is_typescript_ext() {
    assert!(is_typescript_ext("script.ts"));
    assert!(is_typescript_ext("script.mts"));
    assert!(is_typescript_ext("script.tsx"));
    assert!(!is_typescript_ext("script.js"));
    assert!(!is_typescript_ext("script.json"));
}

#[test]
fn test_detect_k6_export_default() {
    let adapter = K6ScriptAdapter;
    let data = br#"export default function() { http.get("https://example.com"); }"#;
    assert!(adapter.detect(data));
}

#[test]
fn lib_test_detect_k6_import() {
    let adapter = K6ScriptAdapter;
    let data = br#"import { check } from "k6"; export default function() {}"#;
    assert!(adapter.detect(data));
}

#[test]
fn lib_test_detect_postman_not_k6() {
    let adapter = K6ScriptAdapter;
    let data = br#"{"info":{"name":"Test","schema":"https://schema.getpostman.com/json/collection/v2.1.0/collection.json"},"item":[]}"#;
    assert!(!adapter.detect(data), "Postman JSON should not be detected as k6");
}

#[test]
fn test_detect_plain_js_http() {
    let adapter = K6ScriptAdapter;
    let data = br#"http.get("https://example.com");"#;
    assert!(adapter.detect(data));
}

#[test]
fn test_detect_k6_script_hitting_postman_echo() {
    let adapter = K6ScriptAdapter;
    let data = br#"import http from "k6/http";
export default function () {
  http.get("https://postman-echo.com/get");
}"#;
    assert!(
        adapter.detect(data),
        "k6 script hitting postman-echo.com must be detected as k6"
    );
}

#[test]
fn test_detect_k6_script_with_item_word() {
    let adapter = K6ScriptAdapter;
    let data = br#"import http from "k6/http";
export default function () {
  const items = [{ "item": "a" }, { "item": "b" }];
  for (const it of items) { http.get("https://example.com/" + it.item); }
}"#;
    assert!(
        adapter.detect(data),
        "k6 script containing a quoted 'item' key must still be detected"
    );
}

#[test]
fn test_detect_real_postman_collection_still_rejected() {
    let adapter = K6ScriptAdapter;
    let data = br#"{"info":{"name":"Test","schema":"https://schema.getpostman.com/json/collection/v2.1.0/collection.json"},"item":[]}"#;
    assert!(
        !adapter.detect(data),
        "a real Postman collection must not be detected as k6"
    );
}

#[test]
fn a_collection_that_speaks_of_calls_is_still_declined() {
    let data = r#"{"info":{"schema":"https://schema.getpostman.com/collection"},"x":"http.get"}"#;
    assert!(has_k6_pattern(data));
    assert!(is_postman_collection(data));
    assert!(!K6ScriptAdapter.detect(data.as_bytes()));
    let doc = Json::parse(r#"{"info":{"schema":7}}"#).unwrap();
    assert!(!is_collection_document(Some(&doc)));
    assert!(!is_collection_document(None));
    let other = r#"{"info":{"schema":"https://example.com/collection"},"x":"check("}"#;
    assert!(K6ScriptAdapter.detect(other.as_bytes()));
}

#[test]
fn bytes_that_are_no_text_are_declined() {
    let bytes = b"export default \xff";
    assert!(!K6Driver.detect(bytes));
    assert_eq!(
        K6ScriptAdapter.parse(bytes).unwrap_err(),
        "k6 script is not valid UTF-8"
    );
    assert_eq!(
        K6ScriptAdapter.parse_with_path(bytes, None, Ok(String::new())).unwrap_err(),
        "k6 script is not valid UTF-8"
    );
    assert!(!K6Driver.detect(b"let x = 1;"));
}

#[test]
fn a_script_becomes_one_item() {
    let s = K6ScriptAdapter.parse("let a = 1;\r\nlet b = 2;\n".as_bytes()).unwrap();
    assert_eq!(s.info.name, "script");
    assert_eq!(s.info.description.as_deref(), Some("k6 script: script"));
    assert_eq!(s.items.len(), 1);
    assert_eq!(
        s.items[0].test,
        vec!["(function() {\n    let a = 1;\n    let b = 2;    })();".to_string()]
    );
    assert!(s.items[0].request.is_none());
    let empty = build_scenario_from_source("", "x");
    assert_eq!(empty.items[0].test[0], "(function() {\n    })();");
}

#[test]
fn a_script_is_named_after_its_file() {
    let a = K6ScriptAdapter;
    assert_eq!(a.id(), "k6");
    assert_eq!(a.source_path(None), "script.js");
    assert_eq!(a.source_path(Some("/x/load.test.ts")), "/x/load.test.ts");
    let s = a.parse_with_path(b"x", Some("/x/load.test.ts"), Ok("y".to_string())).unwrap();
    assert_eq!(s.info.name, "load.test");
    let s = a.parse_with_path(b"x", None, Ok("y".to_string())).unwrap();
    assert_eq!(s.info.name, "script");
    assert_eq!(
        a.parse_with_path(b"x", None, Err("line 3".to_string())).unwrap_err(),
        "k6 script transpilation failed: line 3"
    );
}
