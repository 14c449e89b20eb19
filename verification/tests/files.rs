use std::path::Path;
use tropel_inputs::json::Json;
use tropel_inputs::paths;
use tropel_inputs::scripts::{
    entry_name, files_of_summary, handle_summary, missing_entry_error, module_candidates,
    open_content, open_error, open_path, options_error, pick_module, prepare_module_source,
    require_entry,
};
use tropel_inputs::string_map::StringMap;
use tropel_inputs::text;

#[test]
fn paths_are_taken_apart_as_std_does() {
    for p in [
        "", "/", "//", ".", "..", "/.", "/..", "a", "a/", "a//", "a/.", "a/./.", "a/..", "./a", "../a.b",
        "a.b", ".a", ".a.b", "a.", "a..b", "/a/b.c", "/a/b/", "a/b/.", "/a/.b", "..a", "a/.x/.", "/a",
        "a/...", "caf\u{e9}.ts",
    ] {
        let path = Path::new(p);
        assert_eq!(
            paths::file_name_of(p).as_deref(),
            path.file_name().map(|s| s.to_str().unwrap()),
            "file name of {p:?}"
        );
        assert_eq!(
            paths::file_stem_of(p).as_deref(),
            path.file_stem().map(|s| s.to_str().unwrap()),
            "stem of {p:?}"
        );
        assert_eq!(
            paths::extension_of(p).as_deref(),
            path.extension().map(|s| s.to_str().unwrap()),
            "extension of {p:?}"
        );
        assert_eq!(
            paths::parent_of(p).as_deref(),
            path.parent().map(|d| d.to_str().unwrap()),
            "parent of {p:?}"
        );
        if path.extension().is_none() {
            assert_eq!(
                paths::replace_extension(p, "js"),
                path.with_extension("js").to_str().unwrap(),
                "{p:?} with an extension"
            );
        }
        for q in ["", "x", "/x", "./x"] {
            assert_eq!(paths::join(p, q), path.join(q).to_str().unwrap(), "{p:?} and {q:?}");
        }
        assert_eq!(paths::absolute(p), path.is_absolute(), "{p:?}");
    }
}

#[test]
fn a_new_extension_keeps_the_stem() {
    assert_eq!(paths::replace_extension("/a/b.c", "js"), "/a/b.js");
    assert_eq!(paths::replace_extension("a.b.c/", "js"), "a.b.js");
    assert_eq!(paths::replace_extension("..", "js"), "..");
}

#[test]
fn an_import_means_a_file() {
    let files = module_candidates("k6-script", "./lib", Some("/dir")).unwrap();
    assert_eq!(
        files,
        vec![
            "/dir/./lib",
            "/dir/./lib.js",
            "/dir/./lib.mjs",
            "/dir/./lib.cjs",
            "/dir/./lib.ts",
            "/dir/./lib.mts",
            "/dir/./lib.tsx",
            "/dir/./lib/index.js",
            "/dir/./lib/index.ts",
            "/dir/./lib/index.mjs",
        ]
    );
    assert_eq!(module_candidates("", "./a.js", None).unwrap(), vec!["./a.js"]);
    assert_eq!(
        module_candidates("/dir/sub/m.js", "../a.ts", Some("/dir")).unwrap(),
        vec!["/dir/sub/../a.ts"]
    );
    assert_eq!(module_candidates("x", "/abs/a.js", Some("/dir")).unwrap(), vec!["/abs/a.js"]);
    assert_eq!(
        module_candidates("k6-script", "lodash", Some("/dir")).unwrap_err(),
        "bare module specifiers are not supported (k6 virtual modules are provided by the shim)"
    );
}

#[test]
fn the_first_file_on_disk_is_taken() {
    let files = vec!["a".to_string(), "a.js".to_string(), "a.ts".to_string()];
    assert_eq!(pick_module("b", "./a", &files, &vec![false, true, true]).unwrap(), "a.js");
    assert_eq!(
        pick_module("b", "./a", &files, &vec![false, false, false]).unwrap_err(),
        "cannot resolve module './a' from 'b'"
    );
}

#[test]
fn typescript_is_told_by_its_file_or_its_look() {
    assert_eq!(prepare_module_source("x", Some("a.TS")).as_deref(), Some("a.TS"));
    assert!(prepare_module_source("let x: string", Some("a.js")).is_none());
    assert_eq!(prepare_module_source("let x: string", None).as_deref(), Some("script.js"));
    assert_eq!(prepare_module_source("let x: number", None).as_deref(), Some("script.js"));
    assert_eq!(prepare_module_source("let x: boolean", None).as_deref(), Some("script.js"));
    assert_eq!(prepare_module_source("interface A {}", None).as_deref(), Some("script.js"));
    assert!(prepare_module_source("let x = 1", None).is_none());
}

#[test]
fn a_scenario_calls_the_function_that_it_names() {
    assert_eq!(entry_name(None), "default");
    assert_eq!(entry_name(Some("")), "default");
    assert_eq!(entry_name(Some("checkout")), "checkout");
    assert!(missing_entry_error("default", "x").is_none());
    assert_eq!(
        missing_entry_error("checkout", "undefined").unwrap(),
        "k6 scenario exec 'checkout' is not an exported function (undefined) — the named exec must be an `export function checkout(...)` in the script"
    );
    assert!(require_entry(true).is_ok());
    assert_eq!(
        require_entry(false).unwrap_err(),
        "k6 script did not define a default export function — expected `export default function() { ... }` or `export function handleSummary() { ... }`"
    );
    assert_eq!(
        options_error("bad"),
        "k6 script declares `options` but they failed to parse: bad (k6 would abort — fix the type mismatch, e.g. `stages: [{duration: 60}]` needs a string duration like \"60s\")"
    );
}

#[test]
fn a_file_is_opened_from_the_directory_of_the_script() {
    assert_eq!(open_path(Some("/dir"), "data.csv"), "/dir/data.csv");
    assert_eq!(open_path(Some("/dir"), "/data.csv"), "/data.csv");
    assert_eq!(open_path(None, "data.csv"), "data.csv");
    assert_eq!(open_content("", b"caf\xc3\xa9"), "caf\u{e9}");
    assert_eq!(open_content("", b"a\xffb"), "a\u{fffd}b");
    assert_eq!(open_content("b", b"\x00\xff"), "AP8=");
    assert_eq!(open_content("b", b""), "");
    assert_eq!(open_error("x", "gone"), "open('x'): gone");
}

#[test]
fn a_summary_names_its_files() {
    let files = handle_summary(r#"{"stdout": "done", "a.json": "{}", "n": 1}"#);
    assert_eq!(files.len(), 3);
    assert_eq!(files.get("stdout").map(|s| s.as_str()), Some("done"));
    assert_eq!(files.get("n").map(|s| s.as_str()), Some(""));
    let files = handle_summary("\"text\"");
    assert_eq!(files.get("stdout").map(|s| s.as_str()), Some("text"));
    assert!(handle_summary("[1]").is_empty());
    assert!(handle_summary("junk").is_empty());
    assert!(files_of_summary(None).is_empty());
    assert_eq!(files_of_summary(Some(&Json::parse("{\"a\": \"b\"}").unwrap())).len(), 1);
}

#[test]
fn json_and_yaml_are_read_in_order() {
    let doc = Json::parse("{\"b\": 1, \"a\": [true, null, -2.5, \"x\"]}").unwrap();
    let keys: Vec<&str> = doc.as_object().unwrap().iter().map(|e| e.0.as_str()).collect();
    assert_eq!(keys, vec!["b", "a"]);
    assert_eq!(doc.text, "{\"b\":1,\"a\":[true,null,-2.5,\"x\"]}");
    let n = doc.get("b").unwrap().as_number().unwrap();
    assert_eq!(n.int, Some(1));
    let items = doc.get("a").unwrap().as_array().unwrap();
    assert_eq!(items[0].as_bool(), Some(true));
    assert!(items[1].is_null());
    let n = items[2].as_number().unwrap();
    assert_eq!((n.int, n.real.map(|x| f64::from_bits(x.bits))), (None, Some(-2.5)));
    assert_eq!(items[3].as_str(), Some("x"));
    assert!(Json::parse("{} x").is_none());
    let yaml = Json::parse_yaml("z: 1\na:\n  - b\n").unwrap();
    assert_eq!(yaml.text, "{\"z\":1,\"a\":[\"b\"]}");
    assert!(!Json::parse_yaml("a: [b").unwrap_err().is_empty());
    assert_eq!(Json::null().text, "null");
    assert_eq!(doc.get("a").map(|d| d.text_of("x")), Some(None));
    assert!(Json::parse("[1]").unwrap().into_array().is_some());
}

#[test]
fn texts_are_handled_as_std_does() {
    for s in ["", " a ", "\u{a0}b\u{3000}", "a\nb\r\nc", "x\n", "\n\n", "\r", "a&&b&&", "H\u{c9}llo", "\u{85}q\u{2028}"] {
        assert_eq!(text::trimmed(s), s.trim(), "{s:?}");
        let lines: Vec<String> = s.lines().map(|l| l.to_string()).collect();
        assert_eq!(text::lines_of(s), lines, "{s:?}");
        let parts: Vec<String> = s.split("&&").map(|l| l.to_string()).collect();
        assert_eq!(text::split_on(s, "&&"), parts, "{s:?}");
        assert_eq!(text::lowered(s), s.to_ascii_lowercase(), "{s:?}");
        assert_eq!(text::uppered(s), s.to_ascii_uppercase(), "{s:?}");
        for t in ["", "a", "&&", "\n", "b\u{3000}", "\u{c9}"] {
            assert_eq!(text::has(s, t), s.contains(t), "{s:?} {t:?}");
            assert_eq!(text::has_prefix(s, t), s.starts_with(t), "{s:?} {t:?}");
            assert_eq!(text::has_suffix(s, t), s.ends_with(t), "{s:?} {t:?}");
            assert_eq!(text::cat(s, t), format!("{s}{t}"));
        }
    }
    for n in [0, 9, 10, 101, u64::MAX] {
        assert_eq!(text::decimal_text(n), n.to_string());
    }
    let list = vec!["a".to_string(), "b".to_string()];
    assert_eq!(text::joined(&list, ", "), "a, b");
    assert_eq!(text::joined(&Vec::new(), ", "), "");
}

#[test]
fn a_map_keeps_the_last_value_of_a_key() {
    let mut m: StringMap<String> = StringMap::new();
    assert!(m.is_empty());
    m.set("a", "1");
    m.set("b", "2");
    m.set("a", "3");
    assert_eq!(m.len(), 2);
    assert_eq!(m.get("a").map(|s| s.as_str()), Some("3"));
    assert_eq!(m.entry(0).0, "a");
    let mut other = m.copy();
    other.set("c", "4");
    m.extend(&other);
    assert_eq!(m.len(), 3);
    assert!(m.contains_key("c"));
    assert!(m.get("d").is_none());
}
