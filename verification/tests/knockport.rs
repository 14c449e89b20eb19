use tropel_inputs::http::Body;
use tropel_inputs::json::Json;
use tropel_inputs::knockport::{
    body_of, collection_root, dir_name, is_manifest_document, pairs, parse_method, read_request,
    str_field, str_list, Collection, Entry, Folder, KnockPortInputAdapter, Node,
};
use tropel_inputs::scenario::Scenario;

fn file(name: &str, text: &str) -> Entry {
    Entry { name: name.to_string(), node: Node::File(Ok(text.to_string())) }
}

fn folder(name: &str, manifest: Option<&str>, entries: Vec<Entry>) -> Entry {
    Entry {
        name: name.to_string(),
        node: Node::Folder(Folder {
            manifest: manifest.map(|m| m.to_string()),
            entries: Ok(entries),
        }),
    }
}

const MANIFEST: &str = "name: Doc Example\nvariables: []\norder:\n  - auth\n  - health.yaml\n";
const HEALTH: &str = "name: Health\nmethod: GET\nurl: https://api.example.test/health\n";
const AUTH: &str = "name: auth\norder:\n  - refresh.yaml\n  - login.yaml\n";
const LOGIN: &str = "name: Login\nmethod: POST\nurl: https://api.example.test/login\n";
const REFRESH: &str = "name: Refresh\nmethod: POST\nurl: https://api.example.test/refresh\n";

fn entries(health: &str) -> Vec<Entry> {
    vec![
        file("health.yaml", health),
        folder(
            "auth",
            Some(AUTH),
            vec![
                file("folder.yaml", AUTH),
                file("login.yaml", LOGIN),
                file("refresh.yaml", REFRESH),
            ],
        ),
    ]
}

fn collection(root: &str, manifest: &str, entries: Vec<Entry>) -> Collection {
    Collection {
        root: root.to_string(),
        manifest: Ok(manifest.to_string()),
        requests: Some(Folder { manifest: None, entries: Ok(entries) }),
    }
}

fn parse(c: &Collection) -> Scenario {
    KnockPortInputAdapter.parse_with_path(b"", Some(c)).expect("parses")
}

fn refuse(c: &Collection) -> String {
    KnockPortInputAdapter.parse_with_path(b"", Some(c)).expect_err("must refuse")
}

fn names(s: &Scenario) -> Vec<&str> {
    s.items.iter().map(|i| i.name.as_str()).collect()
}

#[test]
fn a_collection_directory_becomes_a_scenario_tree() {
    let s = parse(&collection("/kp", MANIFEST, entries(HEALTH)));
    assert_eq!(s.info.name, "Doc Example");
    assert_eq!(names(&s), vec!["auth", "Health"]);
    let auth = &s.items[0];
    let inner: Vec<&str> = auth.items.iter().map(|i| i.name.as_str()).collect();
    assert_eq!(inner, vec!["Refresh", "Login"], "folder order is honoured");
    assert!(auth.request.is_none(), "a folder carries no request");
    let health = s.items[1].request.as_ref().expect("health is a request");
    assert_eq!(health.url, "https://api.example.test/health");
    assert_eq!(health.method, "GET");
    assert!(s.conversion_notes.is_empty());
}

#[test]
fn the_manifest_path_and_the_directory_both_work() {
    let from_dir = collection_root("/kp/my-api", true).unwrap();
    let from_file = collection_root("/kp/my-api/knockport.yaml", false).unwrap();
    assert_eq!(from_dir, from_file);
    let dir = parse(&collection(&from_dir, MANIFEST, entries(HEALTH)));
    let manifest = parse(&collection(&from_file, MANIFEST, entries(HEALTH)));
    assert_eq!(dir.info.name, manifest.info.name);
    assert_eq!(dir.items.len(), manifest.items.len());
}

#[test]
fn a_path_reads_alike_whatever_its_end() {
    let unnamed = "description: d\norder: []\n";
    for path in ["", ".", "/", "//", "kp", "kp/", "kp//", "kp/.", "kp/./", "/kp/.", "./.", "/."] {
        let from_dir = collection_root(path, true).unwrap();
        let file = tropel_inputs::paths::join(path, "knockport.yaml");
        let from_file = collection_root(&file, false).unwrap();
        let dir = parse(&collection(&from_dir, unnamed, entries(HEALTH)));
        let manifest = parse(&collection(&from_file, unnamed, entries(HEALTH)));
        assert_eq!(format!("{dir:?}"), format!("{manifest:?}"), "{path:?}");
    }
    let broken = |root: &str| refuse(&collection(root, "a: [", Vec::new()));
    let plain = broken(&collection_root("kp/knockport.yaml", false).unwrap());
    assert_eq!(broken("kp"), plain);
    assert_eq!(broken("kp/"), plain);
    assert_ne!(broken("kp/."), plain, "the error shows the path as it was given");
}

#[test]
fn a_file_missing_from_order_is_imported_not_dropped() {
    let mut all = entries(HEALTH);
    all.push(file(
        "orphan.yaml",
        "name: Orphan\nmethod: GET\nurl: https://api.example.test/orphan\n",
    ));
    let s = parse(&collection("/kp", MANIFEST, all));
    assert_eq!(
        names(&s),
        vec!["auth", "Health", "Orphan"],
        "the unlisted file follows the ordered ones"
    );
}

#[test]
fn an_order_entry_with_no_file_is_a_note_not_a_failure() {
    let s = parse(&collection(
        "/kp",
        "name: Doc Example\norder:\n  - gone.yaml\n  - health.yaml\n",
        entries(HEALTH),
    ));
    assert!(
        s.conversion_notes.iter().any(|n| n.contains("gone.yaml")),
        "the missing entry is reported: {:?}",
        s.conversion_notes
    );
    assert_eq!(
        s.conversion_notes,
        vec!["requests: order lists \"gone.yaml\", which is not on disk".to_string()]
    );
    assert!(s.items.iter().any(|i| i.name == "Health"), "and the rest still imports");
}

#[test]
fn the_filename_is_the_identity_when_no_name_key_is_present() {
    let mut all = entries(HEALTH);
    all.push(file("Unnamed.yaml", "method: GET\nurl: https://api.example.test/x\n"));
    let s = parse(&collection("/kp", MANIFEST, all));
    assert!(s.items.iter().any(|i| i.name == "Unnamed"), "got {:?}", names(&s));
}

#[test]
fn a_disabled_header_row_is_not_sent() {
    let health = "name: Health\nmethod: GET\nurl: https://api.example.test/health\nheaders:\n  - key: X-On\n    value: \"1\"\n    enabled: true\n  - key: X-Off\n    value: \"2\"\n    enabled: false\n";
    let s = parse(&collection("/kp", MANIFEST, entries(health)));
    let req = s
        .items
        .iter()
        .find(|i| i.name == "Health")
        .and_then(|i| i.request.as_ref())
        .expect("health");
    let keys: Vec<&str> = req.headers.iter().map(|(k, _)| k.as_str()).collect();
    assert_eq!(keys, vec!["X-On"], "the disabled row is dropped");
}

#[test]
fn scripts_are_reported_rather_than_silently_dropped() {
    let health = "name: Health\nmethod: GET\nurl: https://api.example.test/health\ntest: |\n  kp.test(\"ok\", () => {});\n";
    let s = parse(&collection("/kp", MANIFEST, entries(health)));
    assert!(
        s.conversion_notes.iter().any(|n| n.contains("scripts are not imported")),
        "got {:?}",
        s.conversion_notes
    );
    assert!(s.conversion_notes[0].starts_with("requests/health.yaml: "));
}

#[test]
fn parse_without_a_path_refuses_by_name() {
    let msg = KnockPortInputAdapter.parse(b"name: X\norder: []\n").expect_err("must refuse");
    assert!(msg.contains("DIRECTORY"), "got {msg}");
    assert!(msg.contains("knockport.yaml"), "names the file: {msg}");
    let same = KnockPortInputAdapter.parse_with_path(b"name: X\n", None).expect_err("must refuse");
    assert_eq!(msg, same);
    assert_eq!(KnockPortInputAdapter.id(), "knockport");
}

#[test]
fn detect_claims_a_manifest_and_declines_every_other_format() {
    let a = KnockPortInputAdapter;
    assert!(a.detect(b"name: My API\norder:\n  - health.yaml\n"));
    assert!(!a.detect(b"name: Health\nmethod: GET\nurl: https://x/y\n"));
    assert!(!a.detect(br#"{"openapi":"3.0.0","info":{"title":"t"}}"#));
    assert!(!a.detect(br#"{"swagger":"2.0","info":{"title":"t"}}"#));
    assert!(!a.detect(br#"{"log":{"entries":[]}}"#));
    assert!(!a.detect(br#"{"_type":"export","resources":[]}"#));
    assert!(!a.detect(br#"{"version":"1","name":"b","items":[]}"#));
    assert!(!a.detect(b"not: [valid"));
}

#[test]
fn a_missing_root_manifest_names_the_file_it_wanted() {
    let c = Collection {
        root: "/empty".to_string(),
        manifest: Err("No such file or directory (os error 2)".to_string()),
        requests: None,
    };
    let msg = refuse(&c);
    assert!(msg.contains("knockport.yaml"), "got {msg}");
    assert_eq!(
        msg,
        "cannot read /empty/knockport.yaml: No such file or directory (os error 2) — a KnockPort collection root must contain knockport.yaml"
    );
}

#[test]
fn every_marker_of_another_format_is_declined() {
    for key in ["openapi", "swagger", "log", "_type", "info", "items"] {
        let text = format!("name: a\norder: []\n{key}: 1\n");
        assert!(!KnockPortInputAdapter.detect(text.as_bytes()), "{key}");
    }
    assert!(!KnockPortInputAdapter.detect(b"version: \"1\"\nname: b\norder: []\n"));
    assert!(KnockPortInputAdapter.detect(b"version: \"2\"\nname: b\norder: []\n"));
    assert!(!KnockPortInputAdapter.detect(b"name: a\norder: b\n"));
    assert!(!KnockPortInputAdapter.detect(b"- name\n"));
    assert!(!KnockPortInputAdapter.detect(b"\xff"));
    let doc = Json::parse_yaml("name: a\norder: []\n").unwrap();
    assert!(is_manifest_document(&doc));
}

#[test]
fn a_collection_without_requests_says_so() {
    let c = Collection {
        root: "/x/my-api".to_string(),
        manifest: Ok("description: d\n".to_string()),
        requests: None,
    };
    let s = parse(&c);
    assert_eq!(s.info.name, "my-api");
    assert_eq!(s.info.description.as_deref(), Some("d"));
    assert!(s.items.is_empty());
    assert_eq!(
        s.conversion_notes,
        vec!["no requests/ directory beside knockport.yaml — the collection imported with no requests".to_string()]
    );
}

#[test]
fn what_cannot_be_read_is_an_error() {
    let broken = "a: [b";
    let msg = refuse(&collection("/kp", broken, Vec::new()));
    assert!(msg.starts_with("/kp/knockport.yaml is not valid YAML: "), "{msg}");
    let msg = refuse(&collection("/kp", MANIFEST, vec![file("a.yaml", broken)]));
    assert!(msg.starts_with("/kp/requests/a.yaml is not valid YAML: "), "{msg}");
    let msg = refuse(&collection("/kp", MANIFEST, vec![folder("f", Some(broken), Vec::new())]));
    assert!(msg.starts_with("/kp/requests/f/folder.yaml is not valid YAML: "), "{msg}");
    let msg = refuse(&collection(
        "/kp",
        MANIFEST,
        vec![Entry { name: "a.yaml".to_string(), node: Node::File(Err("gone".to_string())) }],
    ));
    assert_eq!(msg, "cannot read /kp/requests/a.yaml: gone");
    let c = Collection {
        root: "/kp".to_string(),
        manifest: Ok(MANIFEST.to_string()),
        requests: Some(Folder { manifest: None, entries: Err("denied".to_string()) }),
    };
    assert_eq!(refuse(&c), "cannot read /kp/requests: denied");
    let msg = refuse(&collection("/kp", MANIFEST, vec![file("a.yml", "url: u\nmethod: FROB\n")]));
    assert_eq!(msg, "requests/a.yml: \"FROB\" is not an HTTP method");
    assert_eq!(
        collection_root("/", false).unwrap_err(),
        "/ has no parent directory, so the collection root cannot be found"
    );
}

#[test]
fn a_folder_without_a_manifest_is_named_after_its_directory() {
    let s = parse(&collection(
        "/kp",
        "name: n\norder: []\n",
        vec![
            file("README.md", "not a request"),
            folder("zeta", None, vec![file("b.yml", "url: b\n"), file("a.yaml", "url: a\n")]),
            file("Alpha.yaml", "url: c\n"),
        ],
    ));
    assert_eq!(names(&s), vec!["Alpha", "zeta"]);
    let inner: Vec<&str> = s.items[1].items.iter().map(|i| i.name.as_str()).collect();
    assert_eq!(inner, vec!["a", "b"]);
}

#[test]
fn a_file_listed_twice_is_read_twice() {
    let s = parse(&collection(
        "/kp",
        "order:\n  - b.yaml\n  - b.yaml\n  - 3\n",
        vec![file("a.yaml", "url: a\n"), file("b.yaml", "url: b\n")],
    ));
    assert_eq!(names(&s), vec!["b", "b", "a"]);
}

#[test]
fn what_is_not_brought_across_is_noted() {
    let mut notes = Vec::new();
    let content = Ok(
        "url: u\nprerequest: x\nassertions: []\nbody:\n  type: binary\n  file:\n    path: ../x\n"
            .to_string(),
    );
    let item = read_request(&content, "/kp/requests/a.yaml", "requests/a.yaml", &mut notes)
        .unwrap()
        .unwrap();
    assert_eq!(notes.len(), 3);
    assert!(notes[0].contains("scripts are not imported"));
    assert_eq!(notes[1], "requests/a.yaml: assertions are not imported");
    assert_eq!(notes[2], "requests/a.yaml: binary bodies are not imported");
    assert!(item.request.unwrap().body.is_none());
    let none = read_request(&Ok("name: x\n".to_string()), "/a.yaml", "a.yaml", &mut notes).unwrap();
    assert!(none.is_none());
    assert_eq!(notes[3], "a.yaml: no url, skipped");
}

#[test]
fn a_request_has_its_parameters_and_its_body() {
    let doc = Json::parse_yaml(
        "params:\n  - key: a\n    value: \"1\"\n  - key: a\n    value: \"2\"\n  - key: b\nbody:\n  type: json\n  raw: '{}'\n",
    )
    .unwrap();
    assert_eq!(pairs(&doc, "params").len(), 3);
    assert!(matches!(body_of(&doc), Some(Body::Raw(ref s)) if s == "{}"));
    let mut notes = Vec::new();
    let item = read_request(
        &Ok("url: u\nmethod: ' put '\nparams:\n  - key: a\n    value: \"1\"\n  - key: a\n    value: \"2\"\n".to_string()),
        "/x/q.yaml",
        "q.yaml",
        &mut notes,
    )
    .unwrap()
    .unwrap();
    let request = item.request.unwrap();
    assert_eq!(request.method, "PUT");
    assert_eq!(request.query_params.get("a").map(|s| s.as_str()), Some("2"));
}

#[test]
fn a_form_is_sent_without_its_disabled_rows() {
    let doc = Json::parse(
        r#"{"body": {"type": "form-urlencoded", "formData": [{"key": "a", "value": "1"}, {"key": "b", "value": "2", "enabled": false}, {"value": "3"}]}}"#,
    )
    .unwrap();
    match body_of(&doc) {
        Some(Body::UrlEncoded(m)) => {
            assert_eq!(m.len(), 1);
            assert_eq!(m.get("a").map(|s| s.as_str()), Some("1"));
        }
        other => panic!("expected a form, got {other:?}"),
    }
    for text in [
        "{}",
        r#"{"body": 1}"#,
        r#"{"body": {"type": "json"}}"#,
        r#"{"body": {"type": "form-urlencoded"}}"#,
        r#"{"body": {"type": "other", "raw": "x"}}"#,
    ] {
        assert!(body_of(&Json::parse(text).unwrap()).is_none(), "{text}");
    }
}

#[test]
fn methods_and_fields_are_read_tolerantly() {
    for m in ["GET", "POST", "PUT", "PATCH", "DELETE", "HEAD", "OPTIONS"] {
        assert_eq!(parse_method(m).as_deref(), Some(m));
        assert_eq!(parse_method(&format!(" {}\n", m.to_lowercase())).as_deref(), Some(m));
    }
    assert!(parse_method("TRACE").is_none());
    assert!(parse_method("").is_none());
    let doc = Json::parse(r#"{"a": "x", "b": 1, "c": ["y", 2, "z"]}"#).unwrap();
    assert_eq!(str_field(&doc, "a"), Some("x"));
    assert_eq!(str_field(&doc, "b"), None);
    assert_eq!(str_list(&doc, "c"), vec!["y".to_string(), "z".to_string()]);
    assert!(str_list(&doc, "a").is_empty());
    assert_eq!(dir_name("/a/b/"), "b");
    assert_eq!(dir_name("/"), "KnockPort collection");
}
