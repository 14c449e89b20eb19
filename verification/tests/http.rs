use std::io::Read;
use std::time::Duration;
use tropel_inputs::binary64::Binary64;
use tropel_inputs::http::{
    assemble_request, begin_batch, begin_entry, begin_request, build_k6_request,
    build_k6_response_object, compress_k6_body, finish_batch, finish_request, k6_error_code,
    k6_error_envelope, pack_body, parse_k6_extras, read_body, read_entry, Attempt, Body, Cookie,
    HttpResponse, K6Response, Outcome, ShownBody, K6_VU_HEAP_BYTES,
};
use tropel_inputs::http_samples::{
    coerce_tag_value, http_tags_for, push_http_failure, push_http_samples_for, push_redirect_hops,
    stringify_tag_map_into, RedirectHop, Timings,
};
use tropel_inputs::json::Json;
use tropel_inputs::samples::{Sample, SampleType, SampleValue};
use tropel_inputs::string_map::StringMap;

fn value_of(sample: &Sample) -> f64 {
    match sample.value {
        SampleValue::Nanos(n) => Duration::from_nanos(n as u64).as_secs_f64() * 1000.0,
        SampleValue::Count(n) => n as f64,
        SampleValue::Flag(b) => u8::from(b) as f64,
        SampleValue::Number(x) => f64::from_bits(x.bits),
    }
}

fn tag<'a>(sample: &'a Sample, key: &str) -> Option<&'a str> {
    sample.tags.get(key).map(|s| s.as_str())
}

fn metrics(samples: &[Sample]) -> Vec<&str> {
    samples.iter().map(|s| s.metric.as_str()).collect()
}

fn document(text: &str) -> Json {
    Json::parse(text).expect("a document")
}

fn micros(n: u64) -> u128 {
    Duration::from_micros(n).as_nanos()
}

#[test]
fn test_parse_k6_extras_coerces_non_string_tag_values() {
    let extras = document(
        r#"{"timeoutMs": 1000, "tags": {"kind": "a", "code": 200, "ok": true, "nil": null}, "auth": null, "redirects": 0, "compression": "", "bodyB64": false}"#,
    );
    let p = parse_k6_extras(&extras);
    assert_eq!(p.tags.get("kind").map(String::as_str), Some("a"), "string tag dropped");
    assert_eq!(p.tags.get("code").map(String::as_str), Some("200"), "numeric tag dropped");
    assert_eq!(p.tags.get("ok").map(String::as_str), Some("true"), "bool tag dropped");
    assert_eq!(
        p.tags.get("nil").map(String::as_str),
        Some(""),
        "null tag must coerce to empty string, not vanish"
    );
    assert_eq!(p.tags.len(), 4, "tag map partially dropped: {:?}", p.tags);
}

#[test]
fn test_compress_k6_body_gzip_and_deflate() {
    let data = b"{\"hello\":\"world\"}".repeat(3);
    let gz = compress_k6_body("gzip", &data).expect("gzip should compress");
    assert_ne!(gz, data, "gzip must change the bytes");
    let mut dec = flate2::read::GzDecoder::new(gz.as_slice());
    let mut out = Vec::new();
    dec.read_to_end(&mut out).unwrap();
    assert_eq!(out, data, "gzip round-trip must restore the body");

    let df = compress_k6_body("deflate", &data).expect("deflate should compress");
    let mut dec2 = flate2::read::DeflateDecoder::new(df.as_slice());
    let mut out2 = Vec::new();
    dec2.read_to_end(&mut out2).unwrap();
    assert_eq!(out2, data, "deflate round-trip must restore the body");

    assert!(compress_k6_body("br", &data).is_none(), "unsupported must be None");
    assert!(compress_k6_body("gzip", b"").is_none(), "empty body must be None");
}

#[test]
fn test_push_http_samples_emits_sub_timing_metrics() {
    let mut samples: Vec<Sample> = Vec::new();
    let timings = Timings {
        blocked: micros(100),
        dns: micros(200),
        connecting: micros(300),
        tls_handshaking: 0,
        sending: 0,
        waiting: micros(4000),
        receiving: micros(500),
        total: micros(5100),
    };
    push_http_samples_for(
        &mut samples,
        "http://example.com/",
        "GET",
        200,
        micros(5100),
        42,
        7,
        Some(timings),
        "s",
        None,
        None,
        0,
    );
    let names = metrics(&samples);
    for m in [
        "http_req_duration",
        "http_req_blocked",
        "http_req_dns",
        "http_req_connecting",
        "http_req_tls_handshaking",
        "http_req_sending",
        "http_req_waiting",
        "http_req_receiving",
    ] {
        assert!(names.contains(&m), "k6 path must emit {m}, got {names:?}");
    }
    let waiting = samples.iter().find(|s| s.metric == "http_req_waiting").unwrap();
    assert_eq!(value_of(waiting), 4.0, "waiting must carry the TTFB in ms");
    let blocked = samples.iter().find(|s| s.metric == "http_req_blocked").unwrap();
    assert_eq!(value_of(blocked), 0.1, "blocked must carry the pool-wait in ms");
    assert_eq!(samples.len(), 12, "5 base + 7 sub-timing samples");
}

#[test]
fn test_push_http_failure_emits_duration_and_data_sent() {
    let mut samples: Vec<Sample> = Vec::new();
    push_http_failure(
        &mut samples,
        "http://down:9/",
        "GET",
        "s",
        None,
        None,
        Duration::from_millis(1500).as_nanos(),
        7,
        0,
    );
    let duration = samples
        .iter()
        .find(|s| s.metric == "http_req_duration")
        .expect("failure must emit http_req_duration (time-to-failure)");
    assert_eq!(value_of(duration), 1500.0, "http_req_duration must carry the elapsed ms");
    assert_eq!(
        duration.sample_type,
        SampleType::Trend,
        "same Trend series as the success path"
    );
    let reqs = samples
        .iter()
        .find(|s| s.metric == "http_reqs")
        .expect("failure must emit http_reqs");
    assert_eq!(value_of(reqs), 1.0);
    let failed = samples
        .iter()
        .find(|s| s.metric == "http_req_failed")
        .expect("failure must emit http_req_failed");
    assert_eq!(value_of(failed), 1.0);
    let sent = samples
        .iter()
        .find(|s| s.metric == "data_sent")
        .expect("failure must emit data_sent (wire size)");
    assert_eq!(value_of(sent), 7.0, "data_sent must carry the request-body bytes");
    assert_eq!(samples.len(), 4, "duration + reqs + failed + data_sent");
}

fn response_of(body: Vec<u8>, response_type: &str) -> K6Response {
    build_k6_response_object(
        200,
        "OK",
        body,
        &StringMap::new(),
        micros(5000),
        None,
        "",
        0,
        response_type,
        &Vec::new(),
    )
}

#[test]
fn oversized_binary_body_degrades_to_status0_envelope_not_panic() {
    let obj = response_of(vec![0u8; K6_VU_HEAP_BYTES], "binary");
    assert_eq!(obj.status, 0, "oversized binary body must degrade to status 0");
    assert!(!obj.error.is_empty(), "envelope must carry an error message");
    assert!(matches!(obj.body, ShownBody::Bytes(ref b) if b.is_empty()));
}

#[test]
fn oversized_text_body_degrades_to_status0_envelope_not_empty_string() {
    let obj = response_of(vec![b'x'; K6_VU_HEAP_BYTES], "");
    assert_eq!(obj.status, 0, "oversized text body must degrade to status 0");
    assert!(!obj.error.is_empty(), "envelope must carry an error message");
    assert!(
        matches!(obj.body, ShownBody::Text(ref t) if t.is_empty()),
        "degraded envelope must not carry a partial body"
    );
}

#[test]
fn a_body_below_the_heap_is_shown() {
    let obj = response_of(vec![b'x'; K6_VU_HEAP_BYTES - 1], "text");
    assert_eq!(obj.status, 200);
    assert!(matches!(obj.body, ShownBody::Text(ref t) if t.len() == K6_VU_HEAP_BYTES - 1));
    let obj = response_of(vec![1, 2, 255], "Binary");
    assert!(matches!(obj.body, ShownBody::Bytes(ref b) if *b == vec![1, 2, 255]));
    let obj = response_of(vec![b'a', 0xff, b'b'], "text");
    assert!(matches!(obj.body, ShownBody::Text(ref t) if t == "a\u{fffd}b"));
    assert_eq!(obj.response_time, 5_000_000);
    assert_eq!(obj.error_code, 0);
}

#[test]
fn errors_have_the_code_of_what_they_speak_of() {
    for (msg, code) in [
        ("DNS lookup failed", 1100),
        ("nodename nor servname", 1100),
        ("could not resolve host", 1100),
        ("operation timed out", 1050),
        ("Timeout", 1050),
        ("deadline has elapsed", 1050),
        ("TLS alert", 1300),
        ("bad certificate", 1300),
        ("handshake failure", 1300),
        ("HTTP2 error", 1600),
        ("h2 protocol", 1600),
        ("connection closed", 1200),
        ("refused", 1200),
        ("reset by peer", 1200),
        ("bad url", 1010),
        ("bad URI", 1010),
        ("something else", 1000),
        ("", 1000),
    ] {
        assert_eq!(k6_error_code(msg), code, "{msg}");
    }
    let e = k6_error_envelope("connect timeout", true);
    assert_eq!((e.status, e.error_code), (0, 1050));
    assert_eq!(e.status_text, "connect timeout");
    assert!(e.cookies.is_none());
}

fn cookie(name: &str, value: &str) -> Cookie {
    Cookie {
        name: name.to_string(),
        value: value.to_string(),
        domain: None,
        path: Some("/".to_string()),
        http_only: Some(true),
        secure: None,
        expires: None,
        same_site: None,
    }
}

#[test]
fn cookies_of_one_name_are_kept_together() {
    let cookies = vec![cookie("a", "1"), cookie("b", "2"), cookie("a", "3")];
    let obj = build_k6_response_object(
        200,
        "OK",
        Vec::new(),
        &StringMap::new(),
        0,
        None,
        "",
        0,
        "text",
        &cookies,
    );
    let shown = obj.cookies.unwrap();
    assert_eq!(shown.len(), 2);
    assert_eq!((shown.entry(0).0.as_str(), shown.entry(1).0.as_str()), ("a", "b"));
    let a: Vec<&str> = shown.get("a").unwrap().iter().map(|c| c.value.as_str()).collect();
    assert_eq!(a, vec!["1", "3"]);
    assert_eq!(shown.get("b").unwrap()[0].path.as_deref(), Some("/"));
    assert_eq!(shown.get("b").unwrap()[0].http_only, Some(true));
}

#[test]
fn parameters_of_another_kind_count_as_absent() {
    let p = parse_k6_extras(&document(
        r#"{"timeoutMs": "1000", "tags": [1], "redirects": 1.5, "compression": 3, "bodyB64": "yes"}"#,
    ));
    assert_eq!(p.timeout_ms.bits, 0);
    assert!(p.tags.is_empty());
    assert!(p.auth.is_none());
    assert_eq!(p.redirects, -1);
    assert_eq!(p.compression, "");
    assert!(!p.body_b64);
    let p = parse_k6_extras(&document(
        r#"{"timeoutMs": 2.5, "auth": {"type": "basic"}, "redirects": 3, "compression": "gzip", "bodyB64": true}"#,
    ));
    assert_eq!(f64::from_bits(p.timeout_ms.bits), 2.5);
    assert_eq!(p.auth.as_deref(), Some(r#"{"type":"basic"}"#));
    assert_eq!(p.redirects, 3);
    assert_eq!(p.compression, "gzip");
    assert!(p.body_b64);
}

#[test]
fn a_request_is_built_from_its_parts() {
    let extras = document(
        r#"{"timeoutMs": 1500.9, "redirects": 0, "compression": "gzip, deflate", "tags": {"k": 1}}"#,
    );
    let (request, params, fault) = build_k6_request(
        "post",
        Some("POST".to_string()),
        "https://example.com/",
        r#"{"A": "b"}"#,
        "payload",
        "text",
        &extras,
    );
    assert!(fault.is_none());
    assert_eq!(request.method, "POST");
    assert_eq!(request.timeout, Some(1500));
    assert!(!request.follow_redirects);
    assert_eq!(params.tags.get("k").map(String::as_str), Some("1"));
    assert_eq!(
        request.headers,
        vec![
            ("A".to_string(), "b".to_string()),
            ("Content-Encoding".to_string(), "gzip".to_string()),
        ]
    );
    match request.body {
        Some(Body::Binary(bytes)) => {
            let mut out = String::new();
            flate2::read::GzDecoder::new(bytes.as_slice()).read_to_string(&mut out).unwrap();
            assert_eq!(out, "payload");
        }
        other => panic!("expected a compressed body, got {other:?}"),
    }
}

#[test]
fn a_body_in_base64_is_sent_as_its_bytes() {
    let extras = document(r#"{"bodyB64": true, "compression": "gzip"}"#);
    let (request, _, _) =
        build_k6_request("GET", Some("GET".to_string()), "u", "{}", "AP8=", "text", &extras);
    assert!(matches!(request.body, Some(Body::Binary(ref b)) if *b == vec![0, 255]));
    assert!(request.headers.is_empty(), "bytes are not compressed");
    let (request, _, _) =
        build_k6_request("GET", Some("GET".to_string()), "u", "{}", "not base64!", "text", &extras);
    assert!(request.body.is_none());
    assert!(request.follow_redirects);
    assert!(request.timeout.is_none());
}

#[test]
fn a_body_is_packed_by_what_compression_made_of_it() {
    assert!(read_body("", true, Some(vec![1])).is_none());
    assert!(read_body("x", true, None).is_none());
    assert!(matches!(read_body("x", false, None), Some(Body::Raw(ref s)) if s == "x"));
    let (body, headers) = pack_body(
        Some(Body::Raw("x".to_string())),
        Vec::new(),
        "deflate",
        Some(vec![9]),
    );
    assert!(matches!(body, Some(Body::Binary(ref b)) if *b == vec![9]));
    assert_eq!(headers, vec![("Content-Encoding".to_string(), "deflate".to_string())]);
    let (body, headers) =
        pack_body(Some(Body::Raw("x".to_string())), Vec::new(), "", Some(vec![9]));
    assert!(matches!(body, Some(Body::Raw(ref s)) if s == "x"));
    assert!(headers.is_empty());
    let params = parse_k6_extras(&document(r#"{"timeoutMs": -1}"#));
    let request =
        assemble_request("WEIRD", None, "u", Vec::new(), "x", "none", &params, None, None);
    assert_eq!(request.method, "WEIRD");
    assert_eq!(request.response_type, "none");
    assert!(request.timeout.is_none());
}

#[test]
fn tags_of_the_script_win() {
    let mut extra = StringMap::new();
    extra.insert("name".to_string(), "login".to_string());
    extra.insert("team".to_string(), "a".to_string());
    let tags = http_tags_for("u", "GET", "200", "", Some(&extra), Some("::g"));
    let get = |k: &str| tags.get(k).map(|s| s.as_str());
    assert_eq!(get("name"), Some("login"));
    assert_eq!(get("team"), Some("a"));
    assert_eq!(get("url"), Some("u"));
    assert_eq!(get("group"), Some("::g"));
    assert_eq!(get("scenario"), None);
    let plain = http_tags_for("u", "GET", "200", "s", None, None);
    assert_eq!(plain.get("name").map(|s| s.as_str()), Some("u"));
    assert_eq!(plain.get("group").map(|s| s.as_str()), Some("http"));
    assert_eq!(plain.get("scenario").map(|s| s.as_str()), Some("s"));
}

#[test]
fn tag_values_of_every_kind_become_text() {
    assert_eq!(coerce_tag_value(&document("[1, 2]")), "[1,2]");
    assert_eq!(coerce_tag_value(&document("{\"b\": 1, \"a\": 2}")), "{\"b\":1,\"a\":2}");
    assert_eq!(coerce_tag_value(&document("\"x\"")), "x");
    let mut tags = StringMap::new();
    stringify_tag_map_into("{\"n\": 1.5, \"n\": 2}", &mut tags);
    stringify_tag_map_into("not json", &mut tags);
    stringify_tag_map_into("[1]", &mut tags);
    assert_eq!(tags.len(), 1);
    assert_eq!(tags.get("n").map(|s| s.as_str()), Some("2"));
}

#[test]
fn every_hop_is_a_request() {
    let hops = vec![
        RedirectHop {
            url: "http://a/".to_string(),
            status_code: 302,
            response_time: 1,
            size: 2,
            timings: None,
        },
        RedirectHop {
            url: "http://b/".to_string(),
            status_code: 500,
            response_time: 3,
            size: 4,
            timings: None,
        },
    ];
    let mut samples = Vec::new();
    push_redirect_hops(&mut samples, &hops, "GET", "s", None, None, 9);
    assert_eq!(samples.len(), 10);
    assert_eq!(samples.iter().filter(|s| s.metric == "http_reqs").count(), 2);
    assert_eq!(tag(&samples[0], "url"), Some("http://a/"));
    assert_eq!(tag(&samples[0], "status"), Some("302"));
    assert_eq!(samples[2].value, SampleValue::Flag(false));
    assert_eq!(samples[7].value, SampleValue::Flag(true));
    assert_eq!(samples[9].value, SampleValue::Count(0), "a hop sends no body");
    assert_eq!(samples[9].timestamp, 9);
}

fn arrived(status_code: u16, body: &[u8]) -> Attempt {
    Attempt {
        outcome: Outcome::Response(HttpResponse {
            status_code,
            status_text: "OK".to_string(),
            headers: StringMap::new(),
            body: body.to_vec(),
            response_time: 1_000_000,
            size: 11,
            timings: None,
            redirects: Vec::new(),
            cookies: Vec::new(),
        }),
        elapsed: 2_000_000,
        sent: 3,
    }
}

fn failed(message: &str) -> Attempt {
    Attempt { outcome: Outcome::Error(message.to_string()), elapsed: 2_000_000, sent: 3 }
}

#[test]
fn a_response_is_shown_and_counted() {
    let call = begin_request(
        "get",
        Some("GET".to_string()),
        "http://x/",
        "{}",
        "",
        "text",
        r#"{"tags": {"a": true}}"#,
    );
    let mut samples = Vec::new();
    let seen = finish_request(&mut samples, &call, arrived(404, b"no"), "s", Some("::g"), 5);
    assert_eq!(seen.status, 404);
    assert!(matches!(seen.body, ShownBody::Text(ref t) if t == "no"));
    assert_eq!(
        metrics(&samples),
        vec!["http_req_duration", "http_reqs", "http_req_failed", "data_received", "data_sent"]
    );
    assert_eq!(value_of(&samples[0]), 1.0);
    assert_eq!(value_of(&samples[2]), 1.0);
    assert_eq!(value_of(&samples[3]), 11.0);
    assert_eq!(value_of(&samples[4]), 3.0);
    assert_eq!(tag(&samples[0], "a"), Some("true"));
    assert_eq!(tag(&samples[0], "group"), Some("::g"));
    assert_eq!(tag(&samples[0], "status"), Some("404"));
}

#[test]
fn a_failed_request_is_shown_and_counted() {
    let call =
        begin_request("get", Some("GET".to_string()), "http://x/", "{}", "", "binary", "not json");
    let mut samples = Vec::new();
    let seen = finish_request(&mut samples, &call, failed("connection refused"), "s", None, 5);
    assert_eq!(seen.status, 0);
    assert_eq!(seen.status_text, "HTTP error: connection refused");
    assert_eq!(seen.error, "connection refused");
    assert_eq!(seen.error_code, 1200);
    assert!(matches!(seen.body, ShownBody::Bytes(ref b) if b.is_empty()));
    assert_eq!(
        metrics(&samples),
        vec!["http_req_duration", "http_reqs", "http_req_failed", "data_sent"]
    );
    assert_eq!(value_of(&samples[0]), 2.0);
    assert_eq!(tag(&samples[0], "status"), Some("0"));
}

#[test]
fn credentials_that_cannot_be_read_are_not_sent() {
    let extras = r#"{"auth": {"type": "basic"}}"#;
    let mut call = begin_request("GET", Some("GET".to_string()), "u", "{}", "", "text", extras);
    call.settle_auth(true);
    assert_eq!(call.request.auth.as_deref(), Some(r#"{"type":"basic"}"#));
    call.settle_auth(false);
    assert!(call.request.auth.is_none());
    assert_eq!(call.request.url, "u");
}

#[test]
fn a_refused_method_is_a_failure_and_no_get() {
    let call = begin_request("FROB NICATE", None, "http://x/", "{}", "", "text", "{}");
    assert_eq!(call.fault.as_deref(), Some("invalid HTTP method FROB NICATE"));
    let mut samples = Vec::new();
    let seen = finish_request(&mut samples, &call, failed("not sent"), "s", None, 5);
    assert_eq!(seen.status, 0);
    assert_eq!(seen.error, "invalid HTTP method FROB NICATE");
    assert_eq!(seen.error_code, 1000);
    assert_eq!(metrics(&samples)[2], "http_req_failed");
    assert_eq!(value_of(&samples[2]), 1.0);
    assert_eq!(tag(&samples[0], "method"), Some("FROB NICATE"));
}

#[test]
fn a_batch_is_read_with_its_defaults() {
    let entries = begin_batch(
        r#"[{"key": 0, "url": "http://a/"}, {"key": "b", "method": "POST", "url": "http://b/", "headers_json": "{\"X\": 1}", "body": "q", "response_type": "binary", "extras": "{\"tags\": {\"t\": 7}}"}]"#,
    );
    assert_eq!(entries.len(), 2);
    assert_eq!(entries[0].key, "0");
    assert_eq!(entries[0].method, "GET");
    assert_eq!(entries[0].headers_json, "{}");
    assert_eq!(entries[0].response_type, "text");
    assert!(entries[0].extras.is_null());
    assert_eq!(entries[1].key, "b");
    let call = begin_entry(&entries[1], Some("POST".to_string()));
    assert_eq!(call.tags.get("t").map(|s| s.as_str()), Some("7"));
    assert_eq!(call.request.headers, vec![("X".to_string(), "1".to_string())]);
    assert!(begin_batch("{}").is_empty());
    assert!(begin_batch("[").is_empty());
    assert_eq!(read_entry(&document("{}"), None).key, "");
}

#[test]
fn each_response_of_a_batch_stands_under_its_key() {
    let entries = begin_batch(r#"[{"key": "a", "url": "u"}, {"key": "b", "url": "v"}]"#);
    let calls: Vec<_> =
        vec![begin_entry(&entries[0], Some("GET".to_string())), begin_entry(&entries[1], None)];
    let keys = vec!["a".to_string(), "b".to_string()];
    let mut samples = Vec::new();
    let out = finish_batch(
        &mut samples,
        &keys,
        &calls,
        vec![arrived(200, b"one"), arrived(200, b"two")],
        "s",
        None,
        1,
    )
    .unwrap();
    assert_eq!((out.entry(0).0.as_str(), out.entry(1).0.as_str()), ("a", "b"));
    assert_eq!(out.get("a").unwrap().status, 200);
    let b = out.get("b").unwrap();
    assert_eq!(b.status, 0);
    assert_eq!(b.status_text, "HTTP error: invalid HTTP method GET");
    assert_eq!(samples.iter().filter(|s| s.metric == "http_reqs").count(), 2);
}

#[test]
fn a_key_that_stands_twice_is_an_error() {
    let entries = begin_batch(r#"[{"key": "a"}, {"key": "a"}, {"key": "c"}]"#);
    let calls: Vec<_> =
        entries.iter().map(|e| begin_entry(e, Some("GET".to_string()))).collect();
    let keys: Vec<String> = entries.iter().map(|e| e.key.clone()).collect();
    let mut samples = Vec::new();
    let err = finish_batch(
        &mut samples,
        &keys,
        &calls,
        vec![arrived(200, b""), arrived(200, b""), arrived(200, b"")],
        "",
        None,
        1,
    )
    .unwrap_err();
    assert_eq!(err, "a");
    assert_eq!(samples.len(), 5, "only what came before the second key is recorded");
}

#[test]
fn numbers_are_read_as_rust_casts_them() {
    for x in [0.0, -0.0, 0.9, 1.0, 1.5, -3.0, 255.9, 65535.5, 65536.0, 4294967295.9, 1e19, 2e19, 1e-310,
        f64::INFINITY, f64::NEG_INFINITY, f64::NAN, f64::MAX, 9007199254740993.0]
    {
        let b = Binary64 { bits: x.to_bits() };
        assert_eq!(b.to_u64(), x as u64, "{x}");
        assert_eq!(b.to_u32(), x as u32, "{x}");
        assert_eq!(b.to_u16(), x as u16, "{x}");
        assert_eq!(b.finite(), x.is_finite(), "{x}");
        assert_eq!(b.positive(), x > 0.0, "{x}");
        assert_eq!(b.at_least_one(), x >= 1.0, "{x}");
    }
}
