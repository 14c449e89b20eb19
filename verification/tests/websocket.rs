use tropel_inputs::binary64::Binary64;
use tropel_inputs::samples::{Sample, SampleValue};
use tropel_inputs::websocket::{
    close_code, connect_failed, ends_after, on_frame, step_timeout, ConnectStart, SendAttempts,
    SendOutcome, SendStep, WsCommand, WsEvent, WsFrame, WsSessions, WsWait,
};

fn float(x: f64) -> Binary64 {
    Binary64 { bits: x.to_bits() }
}

fn value<'a>(samples: &'a [Sample], metric: &str) -> &'a SampleValue {
    &samples.iter().find(|s| s.metric == metric).expect("the metric").value
}

fn session() -> WsSessions {
    let mut s = WsSessions::new();
    let id = match s.connect("ws://example.com/x", "{}") {
        ConnectStart::Dial { id, .. } => id,
        other => panic!("expected to dial, got {other:?}"),
    };
    assert_eq!(id, 1);
    s.opened(id, "ws://example.com/x", 7);
    s
}

#[test]
fn an_address_that_is_none_is_refused() {
    let mut s = WsSessions::new();
    match s.connect("not a url", "{}") {
        ConnectStart::Refused(reply) => {
            assert_eq!(reply.id, 0);
            let error = reply.error.unwrap();
            assert!(error.starts_with("invalid ws url 'not a url': "), "{error}");
            assert!(error.len() > "invalid ws url 'not a url': ".len());
        }
        other => panic!("expected a refusal, got {other:?}"),
    }
    assert_eq!(s.last_id, 0);
    match s.begin("u", "{}", Some("bad".to_string())) {
        ConnectStart::Refused(reply) => {
            assert_eq!(reply.error.as_deref(), Some("invalid ws url 'u': bad"));
        }
        other => panic!("expected a refusal, got {other:?}"),
    }
}

#[test]
fn a_handshake_has_the_headers_of_the_script() {
    let mut s = WsSessions::new();
    match s.connect("wss://example.com/", r#"{"X-A": "1", "bad name": "2"}"#) {
        ConnectStart::Dial { id, headers } => {
            assert_eq!(id, 1);
            assert_eq!(headers.len(), 1);
            assert_eq!(headers.get("x-a").map(|v| v.as_str()), Some("1"));
        }
        other => panic!("expected to dial, got {other:?}"),
    }
    match s.begin("u", "{}", None) {
        ConnectStart::Dial { id, .. } => assert_eq!(id, 2),
        other => panic!("expected to dial, got {other:?}"),
    }
}

#[test]
fn a_failed_handshake_leaves_failed_metrics() {
    let mut samples = Vec::new();
    let reply = connect_failed(&mut samples, "ws://x/", "refused", 5, None, 3);
    assert_eq!((reply.id, reply.error.as_deref()), (0, Some("refused")));
    let names: Vec<&str> = samples.iter().map(|s| s.metric.as_str()).collect();
    assert_eq!(names, vec!["ws_connecting", "ws_req_failed"]);
    assert_eq!(samples[0].value, SampleValue::Nanos(5));
    assert_eq!(samples[1].value, SampleValue::Flag(true));
    assert_eq!(samples[1].tags.get("status").map(|s| s.as_str()), Some("0"));
    assert_eq!(samples[1].tags.get("group").map(|s| s.as_str()), Some("ws"));
    connect_failed(&mut samples, "ws://x/", "refused", 5, Some("::outer"), 3);
    assert_eq!(samples[3].tags.get("group").map(|s| s.as_str()), Some("::outer"));
}

#[test]
fn a_session_counts_both_directions() {
    let mut s = session();
    s.text_sent(1, "h\u{e9}");
    s.text_sent(99, "lost");
    let r = s.step(1, WsWait::Event(WsEvent::Text("abc".to_string())));
    assert_eq!((r.kind.as_str(), r.data.as_deref()), ("message", Some("abc")));
    let r = s.step(1, WsWait::Event(WsEvent::Binary(10)));
    assert_eq!((r.kind.as_str(), r.data.as_deref()), ("message", Some("<binary 10 bytes>")));
    for (event, kind) in
        [(WsEvent::Open, "open"), (WsEvent::Ping, "ping"), (WsEvent::Pong, "pong")]
    {
        assert_eq!(s.step(1, WsWait::Event(event)).kind, kind);
    }
    assert_eq!(s.step(1, WsWait::Timeout).kind, "none");
    let mut samples = Vec::new();
    assert!(s.finish(1, 100, None, 4, &mut samples));
    let names: Vec<&str> = samples.iter().map(|s| s.metric.as_str()).collect();
    assert_eq!(
        names,
        vec![
            "ws_connecting",
            "ws_msgs_sent",
            "ws_msgs_received",
            "ws_bytes_sent",
            "ws_bytes_received",
            "ws_sessions",
            "ws_req_duration",
            "ws_req_failed",
            "data_sent",
            "data_received",
        ]
    );
    assert_eq!(value(&samples, "ws_connecting"), &SampleValue::Nanos(7));
    assert_eq!(value(&samples, "ws_msgs_sent"), &SampleValue::Count(1));
    assert_eq!(value(&samples, "ws_bytes_sent"), &SampleValue::Count(3));
    assert_eq!(value(&samples, "ws_msgs_received"), &SampleValue::Count(2));
    assert_eq!(value(&samples, "ws_bytes_received"), &SampleValue::Count(13));
    assert_eq!(value(&samples, "ws_sessions"), &SampleValue::Count(1));
    assert_eq!(value(&samples, "ws_req_duration"), &SampleValue::Nanos(100));
    assert_eq!(value(&samples, "ws_req_failed"), &SampleValue::Flag(false));
    assert_eq!(value(&samples, "data_received"), &SampleValue::Count(13));
    assert_eq!(samples[0].tags.get("status").map(|s| s.as_str()), Some("101"));
    assert!(!s.finish(1, 100, None, 4, &mut samples), "a session ends once");
    assert_eq!(samples.len(), 10);
    assert!(!s.sessions.contains_key(&1));
}

#[test]
fn an_abnormal_end_is_a_failure() {
    let failure = |wait: WsWait| {
        let mut s = session();
        s.step(1, wait);
        s.step(1, WsWait::Timeout);
        let mut samples = Vec::new();
        s.finish(1, 0, None, 0, &mut samples);
        value(&samples, "ws_req_failed") == &SampleValue::Flag(true)
    };
    let close = |code: u16| WsWait::Event(WsEvent::Close { code, reason: "r".to_string() });
    assert!(!failure(close(1000)));
    assert!(!failure(close(1001)));
    assert!(failure(close(1006)));
    assert!(failure(close(1002)));
    assert!(failure(WsWait::Event(WsEvent::Error("e".to_string()))));
    assert!(failure(WsWait::Disconnected));
    assert!(!failure(WsWait::Timeout));
}

#[test]
fn the_script_is_told_how_a_session_ended() {
    let mut s = session();
    let r = s.step(1, WsWait::Event(WsEvent::Close { code: 1001, reason: "bye".to_string() }));
    assert_eq!((r.kind.as_str(), r.code, r.reason.as_deref()), ("close", Some(1001), Some("bye")));
    let r = s.step(1, WsWait::Event(WsEvent::Error("boom".to_string())));
    assert_eq!((r.kind.as_str(), r.message.as_deref()), ("error", Some("boom")));
    let r = s.step(1, WsWait::Disconnected);
    assert_eq!((r.code, r.reason.as_deref()), (Some(1006), Some("connection closed")));
    let r = s.step(2, WsWait::Timeout);
    assert_eq!((r.kind.as_str(), r.code, r.reason.as_deref()), ("close", Some(1006), Some("session not found")));
}

#[test]
fn a_full_queue_is_tried_again() {
    let mut a = SendAttempts::new();
    for _ in 0..49 {
        assert_eq!(a.next(SendOutcome::Full), SendStep::Retry);
    }
    assert_eq!(a.next(SendOutcome::Full), SendStep::Done(false));
    assert_eq!(a.failed, 50);
    let mut b = SendAttempts::new();
    assert_eq!(b.next(SendOutcome::Full), SendStep::Retry);
    assert_eq!(b.next(SendOutcome::Sent), SendStep::Done(true));
    assert_eq!(SendAttempts::new().next(SendOutcome::Closed), SendStep::Done(false));
}

#[test]
fn frames_become_events() {
    assert!(matches!(on_frame(WsFrame::Text("a".to_string())), (Some(WsEvent::Text(ref t)), false) if t == "a"));
    assert!(matches!(on_frame(WsFrame::Binary(3)), (Some(WsEvent::Binary(3)), false)));
    assert!(matches!(on_frame(WsFrame::Ping), (Some(WsEvent::Ping), false)));
    assert!(matches!(on_frame(WsFrame::Pong), (Some(WsEvent::Pong), false)));
    assert!(matches!(on_frame(WsFrame::Raw), (None, false)));
    assert!(matches!(on_frame(WsFrame::Close(None)), (Some(WsEvent::Close { code: 1000, .. }), true)));
    assert!(matches!(on_frame(WsFrame::Close(Some((4000, "x".to_string())))), (Some(WsEvent::Close { code: 4000, ref reason }), true) if reason == "x"));
    assert!(matches!(on_frame(WsFrame::Fault("e".to_string())), (Some(WsEvent::Error(_)), true)));
    assert!(matches!(on_frame(WsFrame::End), (Some(WsEvent::Close { code: 1006, .. }), true)));
    assert!(ends_after(&WsCommand::Close { code: 1000, reason: String::new() }, true));
    assert!(ends_after(&WsCommand::Ping, false));
    assert!(!ends_after(&WsCommand::SendText("x".to_string()), true));
}

#[test]
fn waits_and_codes_are_whole_numbers() {
    assert_eq!(step_timeout(float(0.0)), 1);
    assert_eq!(step_timeout(float(-5.0)), 1);
    assert_eq!(step_timeout(float(f64::NAN)), 1);
    assert_eq!(step_timeout(float(250.9)), 250);
    assert_eq!(step_timeout(float(f64::INFINITY)), u64::MAX);
    assert_eq!(close_code(float(1000.0)), 1000);
    assert_eq!(close_code(float(-1.0)), 0);
    assert_eq!(close_code(float(70000.0)), 65535);
}
