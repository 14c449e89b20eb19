//! WebSocket sessions of a script.
//!
//! The host dials, reads and writes. This module keeps the sessions, counts what
//! goes through them, decides what the script is told of each event, and records
//! the samples of a session that ends or never began.

use crate::binary64;
use crate::binary64::Binary64;
use crate::headers;
use crate::json;
use crate::samples;
use crate::samples::{Sample, SampleType, SampleValue};
use crate::string_map;
use crate::string_map::StringMap;
use crate::text;
use std::collections::HashMap;
use vstd::prelude::*;
use vstd::string::*;
use vstd::utf8::*;

verus! {

broadcast use vstd::std_specs::hash::group_hash_axioms;

/// Something that happened on a connection.
#[derive(Debug)]
pub enum WsEvent {
    Open,
    Text(String),
    /// A binary message, by its length in bytes.
    Binary(usize),
    Ping,
    Pong,
    Close { code: u16, reason: String },
    Error(String),
}

/// What waiting for an event gave.
#[derive(Debug)]
pub enum WsWait {
    Event(WsEvent),
    /// Nothing came in time.
    Timeout,
    /// The reader is gone.
    Disconnected,
}

/// A session.
#[derive(Debug)]
pub struct WsSession {
    pub url: String,
    /// Nanoseconds that the handshake took.
    pub connecting: u128,
    pub msgs_sent: u64,
    pub bytes_sent: u64,
    pub msgs_received: u64,
    pub bytes_received: u64,
    /// Whether an error or an abnormal end was seen.
    pub failed: bool,
}

/// What the script is told of a wait.
#[derive(Debug)]
pub struct WsReply {
    /// `open`, `message`, `ping`, `pong`, `close`, `error` or `none`.
    pub kind: String,
    pub data: Option<String>,
    pub code: Option<u16>,
    pub reason: Option<String>,
    pub message: Option<String>,
}

#[verifier::ext_equal]
pub struct WsReplyView {
    pub kind: Seq<char>,
    pub data: Option<Seq<char>>,
    pub code: Option<u16>,
    pub reason: Option<Seq<char>>,
    pub message: Option<Seq<char>>,
}

impl View for WsReply {
    type V = WsReplyView;

    open spec fn view(&self) -> WsReplyView {
        WsReplyView {
            kind: self.kind@,
            data: text::opt_text(self.data),
            code: self.code,
            reason: text::opt_text(self.reason),
            message: text::opt_text(self.message),
        }
    }
}

/// What the script is told of an attempt to connect: the number of the session,
/// or zero and why there is none.
#[derive(Debug)]
pub struct ConnectReply {
    pub id: u64,
    pub error: Option<String>,
}

/// How an attempt to connect begins.
#[derive(Debug)]
pub enum ConnectStart {
    Refused(ConnectReply),
    /// The host is to dial, with these headers beside those of a handshake.
    Dial { id: u64, headers: StringMap<String> },
}

/// The sessions of a virtual user.
#[derive(Debug)]
pub struct WsSessions {
    pub sessions: HashMap<u64, WsSession>,
    /// The number of the last session.
    pub last_id: u64,
}

/// Why `tungstenite` does not take a text as an address, if it does not: the
/// message of the error of its `into_client_request`.
pub uninterp spec fn url_fault(url: Seq<char>) -> Option<Seq<char>>;

/// `into_client_request` of `tungstenite` makes a request for a handshake of an
/// address, or fails. The claim is that whether it fails, and with which message,
/// is a function of the address, which [`url_fault`] names. Nothing is said of
/// the request, whose key is random.
#[verifier::external_body]
fn address_fault(url: &str) -> (r: Option<String>)
    ensures
        text::opt_text(r) == url_fault(url@),
{
    tokio_tungstenite::tungstenite::client::IntoClientRequest::into_client_request(url).err().map(
        |e| e.to_string(),
    )
}

// ── replies ──

pub open spec fn plain_reply(kind: Seq<char>) -> WsReplyView {
    WsReplyView { kind, data: None, code: None, reason: None, message: None }
}

pub open spec fn message_reply(data: Seq<char>) -> WsReplyView {
    WsReplyView { kind: "message"@, data: Some(data), code: None, reason: None, message: None }
}

pub open spec fn close_reply(code: u16, reason: Seq<char>) -> WsReplyView {
    WsReplyView {
        kind: "close"@,
        data: None,
        code: Some(code),
        reason: Some(reason),
        message: None,
    }
}

/// What the script is told of a wait on a session.
pub open spec fn reply_to(wait: WsWait) -> WsReplyView {
    match wait {
        WsWait::Event(WsEvent::Open) => plain_reply("open"@),
        WsWait::Event(WsEvent::Text(t)) => message_reply(t@),
        WsWait::Event(WsEvent::Binary(n)) => message_reply(
            "<binary "@ + text::decimal(n as nat) + " bytes>"@,
        ),
        WsWait::Event(WsEvent::Ping) => plain_reply("ping"@),
        WsWait::Event(WsEvent::Pong) => plain_reply("pong"@),
        WsWait::Event(WsEvent::Close { code, reason }) => close_reply(code, reason@),
        WsWait::Event(WsEvent::Error(m)) => WsReplyView {
            kind: "error"@,
            data: None,
            code: None,
            reason: None,
            message: Some(m@),
        },
        WsWait::Timeout => plain_reply("none"@),
        WsWait::Disconnected => close_reply(1006, "connection closed"@),
    }
}

/// Whether a connection ended as it should: the codes for a normal end and for
/// going away.
pub open spec fn is_clean(code: u16) -> bool {
    code == 1000 || code == 1001
}

/// Whether a wait shows that a session failed.
pub open spec fn shows_failure(wait: WsWait) -> bool {
    match wait {
        WsWait::Event(WsEvent::Close { code, .. }) => !is_clean(code),
        WsWait::Event(WsEvent::Error(_)) => true,
        WsWait::Disconnected => true,
        _ => false,
    }
}

/// The bytes of the message that a wait gave, if it gave one.
pub open spec fn received_bytes(wait: WsWait) -> Option<nat> {
    match wait {
        WsWait::Event(WsEvent::Text(t)) => Some(encode_utf8(t@).len()),
        WsWait::Event(WsEvent::Binary(n)) => Some(n as nat),
        _ => None,
    }
}

/// A counter after `n` more. It starts again at zero past its largest value.
pub open spec fn counted(counter: u64, n: nat) -> u64 {
    ((counter as nat + n) % 0x1_0000_0000_0000_0000) as u64
}

/// A session after a wait.
pub open spec fn after_wait(s: WsSession, wait: WsWait) -> WsSession {
    let received = match received_bytes(wait) {
        Some(n) => WsSession {
            msgs_received: counted(s.msgs_received, 1),
            bytes_received: counted(s.bytes_received, n),
            ..s
        },
        None => s,
    };
    WsSession { failed: received.failed || shows_failure(wait), ..received }
}

/// A session after a text was sent.
pub open spec fn after_send(s: WsSession, data: Seq<char>) -> WsSession {
    WsSession {
        msgs_sent: counted(s.msgs_sent, 1),
        bytes_sent: counted(s.bytes_sent, encode_utf8(data).len()),
        ..s
    }
}

// ── samples ──

/// The tags of a session.
pub open spec fn ws_tags(url: Seq<char>, status: Seq<char>, group: Option<Seq<char>>) -> Map<
    Seq<char>,
    Seq<char>,
> {
    Map::empty().insert("url"@, url).insert("method"@, "GET"@).insert("status"@, status).insert(
        "name"@,
        url,
    ).insert(
        "group"@,
        match group {
            Some(g) => g,
            None => "ws"@,
        },
    )
}

/// The samples of a session that never began.
pub open spec fn refused_samples(
    url: Seq<char>,
    elapsed: u128,
    group: Option<Seq<char>>,
    now: u64,
) -> Seq<samples::SampleView> {
    let tags = ws_tags(url, "0"@, group);
    seq![
        samples::sample("ws_connecting"@, SampleValue::Nanos(elapsed), tags, now, SampleType::Trend),
        samples::sample("ws_req_failed"@, SampleValue::Flag(true), tags, now, SampleType::Rate),
    ]
}

/// The samples of a session that ended.
pub open spec fn session_samples(
    s: WsSession,
    duration: u128,
    group: Option<Seq<char>>,
    now: u64,
) -> Seq<samples::SampleView> {
    let tags = ws_tags(s.url@, "101"@, group);
    let count = |metric: Seq<char>, n: u64|
        samples::sample(metric, SampleValue::Count(n), tags, now, SampleType::Counter);
    seq![
        samples::sample(
            "ws_connecting"@,
            SampleValue::Nanos(s.connecting),
            tags,
            now,
            SampleType::Trend,
        ),
        count("ws_msgs_sent"@, s.msgs_sent),
        count("ws_msgs_received"@, s.msgs_received),
        count("ws_bytes_sent"@, s.bytes_sent),
        count("ws_bytes_received"@, s.bytes_received),
        count("ws_sessions"@, 1),
        samples::sample(
            "ws_req_duration"@,
            SampleValue::Nanos(duration),
            tags,
            now,
            SampleType::Trend,
        ),
        samples::sample("ws_req_failed"@, SampleValue::Flag(s.failed), tags, now, SampleType::Rate),
        count("data_sent"@, s.bytes_sent),
        count("data_received"@, s.bytes_received),
    ]
}

fn tags_of(url: &str, status: &str, group: Option<&str>) -> (r: StringMap<String>)
    ensures
        string_map::texts(r@) == ws_tags(url@, status@, json::opt_view(group)),
{
    let mut tags: StringMap<String> = StringMap::new();
    assert(string_map::texts(tags@) =~= Map::empty());
    tags.set("url", url);
    tags.set("method", "GET");
    tags.set("status", status);
    tags.set("name", url);
    match group {
        Some(g) => tags.set("group", g),
        None => tags.set("group", "ws"),
    }
    tags
}

fn push_session(
    sink: &mut Vec<Sample>,
    s: &WsSession,
    duration: u128,
    group: Option<&str>,
    now: u64,
)
    ensures
        samples::views(final(sink)@) == samples::views(old(sink)@) + session_samples(
            *s,
            duration,
            json::opt_view(group),
            now,
        ),
{
    let tags = tags_of(s.url.as_str(), "101", group);
    let counter = SampleType::Counter;
    samples::push(
        sink,
        "ws_connecting",
        SampleValue::Nanos(s.connecting),
        &tags,
        now,
        SampleType::Trend,
    );
    samples::push(sink, "ws_msgs_sent", SampleValue::Count(s.msgs_sent), &tags, now, counter);
    samples::push(
        sink,
        "ws_msgs_received",
        SampleValue::Count(s.msgs_received),
        &tags,
        now,
        counter,
    );
    samples::push(sink, "ws_bytes_sent", SampleValue::Count(s.bytes_sent), &tags, now, counter);
    samples::push(
        sink,
        "ws_bytes_received",
        SampleValue::Count(s.bytes_received),
        &tags,
        now,
        counter,
    );
    samples::push(sink, "ws_sessions", SampleValue::Count(1), &tags, now, counter);
    samples::push(
        sink,
        "ws_req_duration",
        SampleValue::Nanos(duration),
        &tags,
        now,
        SampleType::Trend,
    );
    samples::push(sink, "ws_req_failed", SampleValue::Flag(s.failed), &tags, now, SampleType::Rate);
    samples::push(sink, "data_sent", SampleValue::Count(s.bytes_sent), &tags, now, counter);
    samples::push(sink, "data_received", SampleValue::Count(s.bytes_received), &tags, now, counter);
    assert(samples::views(sink@) =~= samples::views(old(sink)@) + session_samples(
        *s,
        duration,
        json::opt_view(group),
        now,
    ));
}

// ── sessions ──

fn count(counter: u64, n: u64) -> (r: u64)
    ensures
        r == counted(counter, n as nat),
{
    let room: u64 = u64::MAX - counter;
    if n <= room {
        counter + n
    } else {
        n - room - 1
    }
}

fn reply(
    kind: &str,
    data: Option<String>,
    code: Option<u16>,
    reason: Option<String>,
    message: Option<String>,
) -> (r: WsReply)
    ensures
        r@ == (WsReplyView {
            kind: kind@,
            data: text::opt_text(data),
            code,
            reason: text::opt_text(reason),
            message: text::opt_text(message),
        }),
{
    WsReply { kind: kind.to_owned(), data, code, reason, message }
}

fn say(wait: WsWait) -> (r: WsReply)
    ensures
        r@ == reply_to(wait),
{
    match wait {
        WsWait::Event(WsEvent::Open) => reply("open", None, None, None, None),
        WsWait::Event(WsEvent::Text(t)) => reply("message", Some(t), None, None, None),
        WsWait::Event(WsEvent::Binary(n)) => {
            let mut data = text::cat("<binary ", text::decimal_text(n as u64).as_str());
            data.append(" bytes>");
            reply("message", Some(data), None, None, None)
        },
        WsWait::Event(WsEvent::Ping) => reply("ping", None, None, None, None),
        WsWait::Event(WsEvent::Pong) => reply("pong", None, None, None, None),
        WsWait::Event(WsEvent::Close { code, reason }) => reply(
            "close",
            None,
            Some(code),
            Some(reason),
            None,
        ),
        WsWait::Event(WsEvent::Error(m)) => reply("error", None, None, None, Some(m)),
        WsWait::Timeout => reply("none", None, None, None, None),
        WsWait::Disconnected => reply(
            "close",
            None,
            Some(1006),
            Some("connection closed".to_owned()),
            None,
        ),
    }
}

fn note(s: &mut WsSession, wait: &WsWait)
    ensures
        *final(s) == after_wait(*old(s), *wait),
{
    match wait {
        WsWait::Event(WsEvent::Text(t)) => {
            s.msgs_received = count(s.msgs_received, 1);
            let n: usize = t.as_str().as_bytes().len();
            s.bytes_received = count(s.bytes_received, n as u64);
        },
        WsWait::Event(WsEvent::Binary(n)) => {
            s.msgs_received = count(s.msgs_received, 1);
            s.bytes_received = count(s.bytes_received, *n as u64);
        },
        WsWait::Event(WsEvent::Close { code, reason: _ }) => {
            if *code != 1000 && *code != 1001 {
                s.failed = true;
            }
        },
        WsWait::Event(WsEvent::Error(_)) => {
            s.failed = true;
        },
        WsWait::Disconnected => {
            s.failed = true;
        },
        _ => {},
    }
}

// ── the task that owns the connection ──

/// What the connection gave.
#[derive(Debug)]
pub enum WsFrame {
    Text(String),
    Binary(usize),
    Ping,
    Pong,
    /// A frame that is no message.
    Raw,
    /// A close, with its code and reason where it has them.
    Close(Option<(u16, String)>),
    Fault(String),
    /// The connection is at its end.
    End,
}

/// A command of the script.
#[derive(Debug)]
pub enum WsCommand {
    SendText(String),
    Ping,
    Close { code: u16, reason: String },
}

/// The event that a frame is, and whether it is the last one.
pub open spec fn frame_shows(frame: WsFrame, event: Option<WsEvent>, last: bool) -> bool {
    match frame {
        WsFrame::Text(t) => event == Some(WsEvent::Text(t)) && !last,
        WsFrame::Binary(n) => event == Some(WsEvent::Binary(n)) && !last,
        WsFrame::Ping => event == Some(WsEvent::Ping) && !last,
        WsFrame::Pong => event == Some(WsEvent::Pong) && !last,
        WsFrame::Raw => event is None && !last,
        WsFrame::Close(Some((code, reason))) => event == Some(WsEvent::Close { code, reason })
            && last,
        WsFrame::Close(None) => (event matches Some(WsEvent::Close { code, reason }) && code == 1000
            && reason@.len() == 0) && last,
        WsFrame::Fault(m) => event == Some(WsEvent::Error(m)) && last,
        WsFrame::End => (event matches Some(WsEvent::Close { code, reason }) && code == 1006
            && reason@ == "connection closed"@) && last,
    }
}

/// The event that a frame is, and whether it is the last one.
pub fn on_frame(frame: WsFrame) -> (r: (Option<WsEvent>, bool))
    ensures
        frame_shows(frame, r.0, r.1),
{
    match frame {
        WsFrame::Text(t) => (Some(WsEvent::Text(t)), false),
        WsFrame::Binary(n) => (Some(WsEvent::Binary(n)), false),
        WsFrame::Ping => (Some(WsEvent::Ping), false),
        WsFrame::Pong => (Some(WsEvent::Pong), false),
        WsFrame::Raw => (None, false),
        WsFrame::Close(Some((code, reason))) => (Some(WsEvent::Close { code, reason }), true),
        WsFrame::Close(None) => (Some(WsEvent::Close { code: 1000, reason: String::new() }), true),
        WsFrame::Fault(m) => (Some(WsEvent::Error(m)), true),
        WsFrame::End => (
            Some(WsEvent::Close { code: 1006, reason: "connection closed".to_owned() }),
            true,
        ),
    }
}

/// Whether the task ends after a command: where it could not be delivered, and
/// after a close.
pub fn ends_after(command: &WsCommand, delivered: bool) -> (r: bool)
    ensures
        r == (!delivered || *command is Close),
{
    match command {
        WsCommand::Close { code: _, reason: _ } => true,
        _ => !delivered,
    }
}

/// How long to wait for an event, in milliseconds: at least one.
pub open spec fn wait_millis(timeout_ms: Binary64) -> u64 {
    if binary64::is_at_least_one(timeout_ms) {
        binary64::saturated(timeout_ms, u64::MAX as nat) as u64
    } else {
        1
    }
}

/// How long to wait for an event, in milliseconds.
pub fn step_timeout(timeout_ms: Binary64) -> (r: u64)
    ensures
        r == wait_millis(timeout_ms),
{
    if timeout_ms.at_least_one() {
        timeout_ms.to_u64()
    } else {
        1
    }
}

/// The code of a close that a script asks for.
pub fn close_code(code: Binary64) -> (r: u16)
    ensures
        r == binary64::saturated(code, u16::MAX as nat),
{
    code.to_u16()
}

/// What an attempt to send a command to the writer gave.
#[derive(Debug, Clone, Copy, PartialEq, Eq, Structural)]
pub enum SendOutcome {
    Sent,
    /// The queue of the writer is full; the host pauses for [`SEND_PAUSE`].
    Full,
    /// The writer is gone.
    Closed,
}

/// What follows an attempt.
#[derive(Debug, Clone, Copy, PartialEq, Eq, Structural)]
pub enum SendStep {
    Done(bool),
    /// Try again.
    Retry,
}

/// How often a command is tried.
pub const SEND_TRIES: u32 = 50;

/// How long to pause after a full queue, in milliseconds.
pub const SEND_PAUSE: u64 = 2;

/// The attempts to send one command.
#[derive(Debug, Clone, Copy, PartialEq, Eq, Structural)]
pub struct SendAttempts {
    pub failed: u32,
}

impl SendAttempts {
    pub fn new() -> (r: SendAttempts)
        ensures
            r.failed == 0,
    {
        SendAttempts { failed: 0 }
    }

    /// Takes the outcome of an attempt. A full queue is tried again, up to a
    /// number of times; a writer that is gone is not.
    pub fn next(&mut self, outcome: SendOutcome) -> (r: SendStep)
        requires
            old(self).failed < SEND_TRIES,
        ensures
            r == (match outcome {
                SendOutcome::Sent => SendStep::Done(true),
                SendOutcome::Closed => SendStep::Done(false),
                SendOutcome::Full => if old(self).failed + 1 < SEND_TRIES {
                    SendStep::Retry
                } else {
                    SendStep::Done(false)
                },
            }),
            final(self).failed == old(self).failed + if outcome == SendOutcome::Full {
                1int
            } else {
                0int
            },
            r == SendStep::Retry ==> final(self).failed < SEND_TRIES,
    {
        match outcome {
            SendOutcome::Sent => SendStep::Done(true),
            SendOutcome::Closed => SendStep::Done(false),
            SendOutcome::Full => {
                self.failed = self.failed + 1;
                if self.failed < SEND_TRIES {
                    SendStep::Retry
                } else {
                    SendStep::Done(false)
                }
            },
        }
    }
}

/// How an attempt to connect begins, given why the address is not taken.
pub open spec fn connect_start(
    url: Seq<char>,
    fault: Option<Seq<char>>,
    last_id: u64,
) -> (u64, Option<Seq<char>>) {
    match fault {
        Some(e) => (0, Some("invalid ws url '"@ + url + "': "@ + e)),
        None => ((last_id + 1) as u64, None),
    }
}

impl WsSessions {
    pub fn new() -> (r: WsSessions)
        ensures
            r.sessions@ == Map::<u64, WsSession>::empty(),
            r.last_id == 0,
    {
        WsSessions { sessions: HashMap::new(), last_id: 0 }
    }

    /// Begins to connect, given why the address is not taken.
    pub fn begin(&mut self, url: &str, headers_json: &str, fault: Option<String>) -> (r:
        ConnectStart)
        requires
            old(self).last_id < u64::MAX,
        ensures
            final(self).sessions == old(self).sessions,
            match r {
                ConnectStart::Refused(reply) => {
                    &&& fault is Some
                    &&& (reply.id, text::opt_text(reply.error)) == connect_start(
                        url@,
                        text::opt_text(fault),
                        old(self).last_id,
                    )
                    &&& final(self).last_id == old(self).last_id
                },
                ConnectStart::Dial { id, headers } => {
                    &&& fault is None
                    &&& id == old(self).last_id + 1
                    &&& final(self).last_id == id
                    &&& string_map::texts(headers@) == headers::handshake_headers(
                        headers::declared_headers(headers_json@, json::json_document(headers_json@)),
                    )
                },
            },
    {
        if let Some(e) = fault {
            let mut error = text::cat("invalid ws url '", url);
            error.append("': ");
            error.append(e.as_str());
            return ConnectStart::Refused(ConnectReply { id: 0, error: Some(error) });
        }
        let declared = headers::parse_headers_tolerant(headers_json);
        let headers = headers::to_handshake_headers(&declared);
        self.last_id = self.last_id + 1;
        ConnectStart::Dial { id: self.last_id, headers }
    }

    /// Begins to connect. An address that is no WebSocket address is refused.
    pub fn connect(&mut self, url: &str, headers_json: &str) -> (r: ConnectStart)
        requires
            old(self).last_id < u64::MAX,
        ensures
            final(self).sessions == old(self).sessions,
            match r {
                ConnectStart::Refused(reply) => {
                    &&& url_fault(url@) is Some
                    &&& (reply.id, text::opt_text(reply.error)) == connect_start(
                        url@,
                        url_fault(url@),
                        old(self).last_id,
                    )
                    &&& final(self).last_id == old(self).last_id
                },
                ConnectStart::Dial { id, headers } => {
                    &&& url_fault(url@) is None
                    &&& id == old(self).last_id + 1
                    &&& final(self).last_id == id
                    &&& string_map::texts(headers@) == headers::handshake_headers(
                        headers::declared_headers(headers_json@, json::json_document(headers_json@)),
                    )
                },
            },
    {
        let fault = address_fault(url);
        self.begin(url, headers_json, fault)
    }

    /// Takes in a session whose handshake succeeded.
    pub fn opened(&mut self, id: u64, url: &str, connecting: u128) -> (r: ConnectReply)
        ensures
            r.id == id,
            r.error is None,
            final(self).last_id == old(self).last_id,
            final(self).sessions@.dom() == old(self).sessions@.dom().insert(id),
            forall|k: u64|
                k != id && old(self).sessions@.contains_key(k) ==> final(self).sessions@[k] == #[trigger] old(
                    self,
                ).sessions@[k],
            ({
                let s = final(self).sessions@[id];
                &&& s.url@ == url@
                &&& s.connecting == connecting
                &&& s.msgs_sent == 0 && s.bytes_sent == 0
                &&& s.msgs_received == 0 && s.bytes_received == 0
                &&& !s.failed
            }),
    {
        let session = WsSession {
            url: url.to_owned(),
            connecting,
            msgs_sent: 0,
            bytes_sent: 0,
            msgs_received: 0,
            bytes_received: 0,
            failed: false,
        };
        self.sessions.insert(id, session);
        assert(self.sessions@.dom() =~= old(self).sessions@.dom().insert(id));
        ConnectReply { id, error: None }
    }

    /// Takes what waiting for an event of a session gave, and says what the script
    /// is told. Where there is no such session, it is told so.
    pub fn step(&mut self, id: u64, wait: WsWait) -> (r: WsReply)
        ensures
            final(self).last_id == old(self).last_id,
            old(self).sessions@.contains_key(id) ==> {
                &&& r@ == reply_to(wait)
                &&& final(self).sessions@ == old(self).sessions@.insert(
                    id,
                    after_wait(old(self).sessions@[id], wait),
                )
            },
            !old(self).sessions@.contains_key(id) ==> {
                &&& r@ == close_reply(1006, "session not found"@)
                &&& final(self).sessions@ == old(self).sessions@
            },
    {
        match self.sessions.remove(&id) {
            Some(session) => {
                let mut s = session;
                note(&mut s, &wait);
                self.sessions.insert(id, s);
                assert(self.sessions@ =~= old(self).sessions@.insert(
                    id,
                    after_wait(old(self).sessions@[id], wait),
                ));
                say(wait)
            },
            None => {
                assert(self.sessions@ =~= old(self).sessions@);
                reply("close", None, Some(1006), Some("session not found".to_owned()), None)
            },
        }
    }

    /// Counts a text that the writer of a session took.
    pub fn text_sent(&mut self, id: u64, data: &str)
        ensures
            final(self).last_id == old(self).last_id,
            old(self).sessions@.contains_key(id) ==> final(self).sessions@ == old(
                self,
            ).sessions@.insert(id, after_send(old(self).sessions@[id], data@)),
            !old(self).sessions@.contains_key(id) ==> final(self).sessions@ == old(self).sessions@,
    {
        match self.sessions.remove(&id) {
            Some(session) => {
                let mut s = session;
                s.msgs_sent = count(s.msgs_sent, 1);
                let n: usize = data.as_bytes().len();
                s.bytes_sent = count(s.bytes_sent, n as u64);
                self.sessions.insert(id, s);
                assert(self.sessions@ =~= old(self).sessions@.insert(
                    id,
                    after_send(old(self).sessions@[id], data@),
                ));
            },
            None => {
                assert(self.sessions@ =~= old(self).sessions@);
            },
        }
    }

    /// Ends a session and records its samples; the result says whether there was
    /// one.
    pub fn finish(
        &mut self,
        id: u64,
        duration: u128,
        group: Option<&str>,
        now: u64,
        sink: &mut Vec<Sample>,
    ) -> (r: bool)
        ensures
            r == old(self).sessions@.contains_key(id),
            final(self).last_id == old(self).last_id,
            final(self).sessions@ == old(self).sessions@.remove(id),
            samples::views(final(sink)@) == samples::views(old(sink)@) + (if r {
                session_samples(old(self).sessions@[id], duration, json::opt_view(group), now)
            } else {
                Seq::empty()
            }),
    {
        match self.sessions.remove(&id) {
            Some(session) => {
                push_session(sink, &session, duration, group, now);
                true
            },
            None => {
                assert(self.sessions@ =~= old(self).sessions@.remove(id));
                assert(samples::views(sink@) =~= samples::views(sink@) + Seq::empty());
                false
            },
        }
    }
}

/// Records the samples of a handshake that failed, and says what the script is
/// told.
pub fn connect_failed(
    sink: &mut Vec<Sample>,
    url: &str,
    error: &str,
    elapsed: u128,
    group: Option<&str>,
    now: u64,
) -> (r: ConnectReply)
    ensures
        r.id == 0,
        text::opt_text(r.error) == Some(error@),
        samples::views(final(sink)@) == samples::views(old(sink)@) + refused_samples(
            url@,
            elapsed,
            json::opt_view(group),
            now,
        ),
{
    let tags = tags_of(url, "0", group);
    samples::push(sink, "ws_connecting", SampleValue::Nanos(elapsed), &tags, now, SampleType::Trend);
    samples::push(sink, "ws_req_failed", SampleValue::Flag(true), &tags, now, SampleType::Rate);
    assert(samples::views(sink@) =~= samples::views(old(sink)@) + refused_samples(
        url@,
        elapsed,
        json::opt_view(group),
        now,
    ));
    ConnectReply { id: 0, error: Some(error.to_owned()) }
}

// ── laws ──

/// A session after the waits of a list, in order.
pub open spec fn after_waits(s: WsSession, waits: Seq<WsWait>) -> WsSession
    decreases waits.len(),
{
    if waits.len() == 0 {
        s
    } else {
        after_wait(after_waits(s, waits.drop_last()), waits.last())
    }
}

/// A session is recorded as failed exactly where it saw an error, an end with
/// another code than 1000 and 1001, or the loss of its reader.
pub proof fn law_session_fails_iff_it_saw_a_failure(s: WsSession, waits: Seq<WsWait>)
    requires
        !s.failed,
    ensures
        after_waits(s, waits).failed <==> exists|i: int|
            0 <= i < waits.len() && shows_failure(#[trigger] waits[i]),
    decreases waits.len(),
{
    if waits.len() > 0 {
        let before = waits.drop_last();
        law_session_fails_iff_it_saw_a_failure(s, before);
        if after_waits(s, before).failed {
            let i = choose|i: int| 0 <= i < before.len() && shows_failure(#[trigger] before[i]);
            assert(waits[i] == before[i]);
        }
        if shows_failure(waits.last()) {
            assert(shows_failure(waits[waits.len() - 1]));
        }
        if exists|i: int| 0 <= i < waits.len() && shows_failure(#[trigger] waits[i]) {
            let i = choose|i: int| 0 <= i < waits.len() && shows_failure(#[trigger] waits[i]);
            if i < before.len() {
                assert(before[i] == waits[i]);
            }
        }
    }
}

/// A failed session stays failed.
pub proof fn law_failure_is_kept(s: WsSession, wait: WsWait, data: Seq<char>)
    requires
        s.failed,
    ensures
        after_wait(s, wait).failed,
        after_send(s, data).failed,
{
}

/// What a session receives does not change what it sent, nor the other way round.
pub proof fn law_directions_are_counted_apart(s: WsSession, wait: WsWait, data: Seq<char>)
    ensures
        after_wait(s, wait).msgs_sent == s.msgs_sent,
        after_wait(s, wait).bytes_sent == s.bytes_sent,
        after_send(s, data).msgs_received == s.msgs_received,
        after_send(s, data).bytes_received == s.bytes_received,
{
}

/// What a script is told of each event: that the connection is open, a text as it
/// came, the size of what is not text, a ping, a pong, a close with its code and
/// reason, an error with its message.
pub proof fn law_events_are_told(wait: WsWait)
    ensures
        ({
            let r = reply_to(wait);
            match wait {
                WsWait::Event(WsEvent::Open) => r.kind == "open"@ && r.data is None,
                WsWait::Event(WsEvent::Text(t)) => r.kind == "message"@ && r.data == Some(t@),
                WsWait::Event(WsEvent::Binary(n)) => r.kind == "message"@ && r.data == Some(
                    "<binary "@ + text::decimal(n as nat) + " bytes>"@,
                ),
                WsWait::Event(WsEvent::Ping) => r.kind == "ping"@ && r.data is None,
                WsWait::Event(WsEvent::Pong) => r.kind == "pong"@ && r.data is None,
                WsWait::Event(WsEvent::Close { code, reason }) => r.kind == "close"@ && r.code
                    == Some(code) && r.reason == Some(reason@) && r.data is None,
                WsWait::Event(WsEvent::Error(m)) => r.kind == "error"@ && r.message == Some(m@)
                    && r.data is None,
                WsWait::Timeout => r.kind == "none"@ && r.data is None,
                WsWait::Disconnected => r.kind == "close"@ && r.code == Some(1006u16) && r.reason
                    == Some("connection closed"@),
            }
        }),
        reply_to(wait).code is Some <==> reply_to(wait).kind == "close"@,
        reply_to(wait).reason is Some <==> reply_to(wait).kind == "close"@,
        reply_to(wait).message is Some <==> reply_to(wait).kind == "error"@,
{
    reveal_strlit("open");
    reveal_strlit("message");
    reveal_strlit("ping");
    reveal_strlit("pong");
    reveal_strlit("close");
    reveal_strlit("error");
    reveal_strlit("none");
    assert("open"@.len() == 4 && "ping"@.len() == 4 && "pong"@.len() == 4 && "none"@.len() == 4);
    assert("close"@.len() == 5 && "error"@.len() == 5 && "message"@.len() == 7);
    assert("close"@[0] != "error"@[0]);
}

/// A message that comes in is counted, with its bytes; nothing else is. Counters
/// start again after their largest value.
pub proof fn law_messages_are_counted(s: WsSession, wait: WsWait)
    ensures
        ({
            let after = after_wait(s, wait);
            let bytes = match wait {
                WsWait::Event(WsEvent::Text(t)) => Some(encode_utf8(t@).len() as int),
                WsWait::Event(WsEvent::Binary(n)) => Some(n as int),
                _ => None,
            };
            &&& bytes is None ==> after.msgs_received == s.msgs_received && after.bytes_received
                == s.bytes_received
            &&& bytes is Some ==> after.msgs_received == (s.msgs_received + 1)
                % 0x1_0000_0000_0000_0000 && after.bytes_received == (s.bytes_received + bytes->0)
                % 0x1_0000_0000_0000_0000
            &&& after.url == s.url
            &&& after.connecting == s.connecting
        }),
{
}

/// A text that goes out is counted, with its bytes.
pub proof fn law_sent_texts_are_counted(s: WsSession, data: Seq<char>)
    ensures
        ({
            let after = after_send(s, data);
            &&& after.msgs_sent == (s.msgs_sent + 1) % 0x1_0000_0000_0000_0000
            &&& after.bytes_sent == (s.bytes_sent + encode_utf8(data).len())
                % 0x1_0000_0000_0000_0000
            &&& after.url == s.url
            &&& after.connecting == s.connecting
            &&& after.failed == s.failed
        }),
{
}

/// What shows that a session failed: an error, the loss of the reader, and a close
/// with a code other than those of a normal end and of going away.
pub proof fn law_what_is_a_failure(wait: WsWait)
    ensures
        wait matches WsWait::Event(WsEvent::Error(_)) ==> shows_failure(wait),
        wait is Disconnected ==> shows_failure(wait),
        wait matches WsWait::Event(WsEvent::Close { code, .. }) ==> (shows_failure(wait) <==> code
            < 1000 || code > 1001),
        wait is Timeout ==> !shows_failure(wait),
        wait matches WsWait::Event(e) && !(e is Error) && !(e is Close) ==> !shows_failure(wait),
{
}

proof fn lemma_ws_metrics()
    ensures
        "ws_connecting"@.len() == 13,
        "ws_msgs_sent"@.len() == 12,
        "ws_msgs_received"@.len() == 16,
        "ws_bytes_sent"@.len() == 13,
        "ws_bytes_received"@.len() == 17,
        "ws_sessions"@.len() == 11,
        "ws_req_duration"@.len() == 15,
        "ws_req_failed"@.len() == 13,
        "data_sent"@.len() == 9,
        "data_received"@.len() == 13,
        "ws_connecting"@[3] == 'c',
        "ws_bytes_sent"@[3] == 'b',
        "ws_req_failed"@[3] == 'r',
        "data_received"@[3] == 'a',
{
    reveal_strlit("ws_connecting");
    reveal_strlit("ws_msgs_sent");
    reveal_strlit("ws_msgs_received");
    reveal_strlit("ws_bytes_sent");
    reveal_strlit("ws_bytes_received");
    reveal_strlit("ws_sessions");
    reveal_strlit("ws_req_duration");
    reveal_strlit("ws_req_failed");
    reveal_strlit("data_sent");
    reveal_strlit("data_received");
}

/// A session that ended is recorded: how long its handshake and the session took,
/// what was counted each way, one session, and whether it failed.
pub proof fn law_session_is_recorded(
    s: WsSession,
    duration: u128,
    group: Option<Seq<char>>,
    now: u64,
)
    ensures
        ({
            let list = session_samples(s, duration, group, now);
            let tags = ws_tags(s.url@, "101"@, group);
            let count = |metric: Seq<char>, n: u64|
                samples::recorded_once(
                    list,
                    metric,
                    SampleValue::Count(n),
                    tags,
                    now,
                    SampleType::Counter,
                );
            &&& list.len() == 10
            &&& samples::recorded_once(
                list,
                "ws_connecting"@,
                SampleValue::Nanos(s.connecting),
                tags,
                now,
                SampleType::Trend,
            )
            &&& samples::recorded_once(
                list,
                "ws_req_duration"@,
                SampleValue::Nanos(duration),
                tags,
                now,
                SampleType::Trend,
            )
            &&& samples::recorded_once(
                list,
                "ws_req_failed"@,
                SampleValue::Flag(s.failed),
                tags,
                now,
                SampleType::Rate,
            )
            &&& count("ws_sessions"@, 1)
            &&& count("ws_msgs_sent"@, s.msgs_sent)
            &&& count("ws_msgs_received"@, s.msgs_received)
            &&& count("ws_bytes_sent"@, s.bytes_sent)
            &&& count("ws_bytes_received"@, s.bytes_received)
            &&& count("data_sent"@, s.bytes_sent)
            &&& count("data_received"@, s.bytes_received)
        }),
{
    lemma_ws_metrics();
    let list = session_samples(s, duration, group, now);
    samples::lemma_recorded_once(list, 0);
    samples::lemma_recorded_once(list, 1);
    samples::lemma_recorded_once(list, 2);
    samples::lemma_recorded_once(list, 3);
    samples::lemma_recorded_once(list, 4);
    samples::lemma_recorded_once(list, 5);
    samples::lemma_recorded_once(list, 6);
    samples::lemma_recorded_once(list, 7);
    samples::lemma_recorded_once(list, 8);
    samples::lemma_recorded_once(list, 9);
}

/// A session that never began is recorded as failed, with the time until it did,
/// and as nothing else.
pub proof fn law_refused_session_is_recorded(
    url: Seq<char>,
    elapsed: u128,
    group: Option<Seq<char>>,
    now: u64,
)
    ensures
        ({
            let list = refused_samples(url, elapsed, group, now);
            let tags = ws_tags(url, "0"@, group);
            &&& list.len() == 2
            &&& samples::recorded_once(
                list,
                "ws_connecting"@,
                SampleValue::Nanos(elapsed),
                tags,
                now,
                SampleType::Trend,
            )
            &&& samples::recorded_once(
                list,
                "ws_req_failed"@,
                SampleValue::Flag(true),
                tags,
                now,
                SampleType::Rate,
            )
        }),
{
    lemma_ws_metrics();
    let list = refused_samples(url, elapsed, group, now);
    samples::lemma_recorded_once(list, 0);
    samples::lemma_recorded_once(list, 1);
}

/// The tags of a session: its address, which is also its name, the method of a
/// handshake, its status, its group or `ws`, and no others.
pub proof fn law_tags_of_a_session(url: Seq<char>, status: Seq<char>, group: Option<Seq<char>>)
    ensures
        ({
            let tags = ws_tags(url, status, group);
            &&& tags["url"@] == url
            &&& tags["name"@] == url
            &&& tags["method"@] == "GET"@
            &&& tags["status"@] == status
            &&& group is Some ==> tags["group"@] == group->0
            &&& group is None ==> tags["group"@] == "ws"@
            &&& forall|k: Seq<char>| #[trigger]
                tags.contains_key(k) <==> k == "url"@ || k == "name"@ || k == "method"@ || k
                    == "status"@ || k == "group"@
        }),
{
    reveal_strlit("url");
    reveal_strlit("name");
    reveal_strlit("method");
    reveal_strlit("status");
    reveal_strlit("group");
    assert("url"@.len() == 3 && "name"@.len() == 4 && "method"@.len() == 6 && "status"@.len() == 6
        && "group"@.len() == 5);
    assert("method"@[0] != "status"@[0]);
}

/// A frame of the connection is the event of its kind, with what it holds, and the
/// connection goes on. A close, a fault and the end are the last: a close without a
/// code is a normal end, and an end without a close is an abnormal one.
pub proof fn law_frames_are_events(frame: WsFrame, event: Option<WsEvent>, last: bool)
    requires
        frame_shows(frame, event, last),
    ensures
        frame matches WsFrame::Text(t) ==> event == Some(WsEvent::Text(t)),
        frame matches WsFrame::Binary(n) ==> event == Some(WsEvent::Binary(n)),
        frame is Ping ==> event == Some(WsEvent::Ping),
        frame is Pong ==> event == Some(WsEvent::Pong),
        frame is Raw ==> event is None,
        frame matches WsFrame::Fault(m) ==> event == Some(WsEvent::Error(m)),
        frame matches WsFrame::Close(Some(f)) ==> event == Some(
            WsEvent::Close { code: f.0, reason: f.1 },
        ),
        frame matches WsFrame::Close(None) ==> (event matches Some(WsEvent::Close { code, reason })
            && code == 1000 && reason@.len() == 0),
        frame is End ==> (event matches Some(WsEvent::Close { code, reason }) && code == 1006
            && reason@ == "connection closed"@),
        last <==> frame is Close || frame is Fault || frame is End,
{
}

/// A wait lasts for the milliseconds that the script asks for, without the
/// fraction, and for one at least.
pub proof fn law_wait_lasts_at_least_a_millisecond(timeout_ms: Binary64)
    ensures
        wait_millis(timeout_ms) >= 1,
        timeout_ms.bits < 0x3ff0_0000_0000_0000 ==> wait_millis(timeout_ms) == 1,
        timeout_ms.bits > 0x7ff0_0000_0000_0000 ==> wait_millis(timeout_ms) == 1,
        0x3ff0_0000_0000_0000 <= timeout_ms.bits <= 0x7ff0_0000_0000_0000 ==> wait_millis(timeout_ms)
            == binary64::saturated(timeout_ms, 0xffff_ffff_ffff_ffff),
{
    if binary64::is_at_least_one(timeout_ms) && binary64::is_finite(timeout_ms) {
        let e = binary64::exponent(timeout_ms);
        let m = (0x10_0000_0000_0000 + binary64::fraction(timeout_ms)) as int;
        if e <= 1075 {
            let s = (1075 - e) as nat;
            vstd::arithmetic::power2::lemma2_to64_rest();
            vstd::arithmetic::power2::lemma_pow2_pos(s);
            if s < 52 {
                vstd::arithmetic::power2::lemma_pow2_strictly_increases(s, 52);
            }
            let p = vstd::arithmetic::power2::pow2(s) as int;
            assert(p <= 0x10_0000_0000_0000);
            assert(m / p >= 1) by (nonlinear_arith)
                requires
                    0 < p <= 0x10_0000_0000_0000,
                    m >= 0x10_0000_0000_0000,
            ;
        } else {
            let s = (e - 1075) as nat;
            vstd::arithmetic::power2::lemma_pow2_pos(s);
            let p = vstd::arithmetic::power2::pow2(s) as int;
            assert(m * p >= 1) by (nonlinear_arith)
                requires
                    p > 0,
                    m >= 1,
            ;
        }
    }
}

/// Where the address is not taken, no session begins, and the script is told why;
/// else the session has the next number.
pub proof fn law_sessions_are_numbered(url: Seq<char>, fault: Option<Seq<char>>, last_id: u64)
    requires
        last_id < u64::MAX,
    ensures
        fault is None ==> connect_start(url, fault, last_id).0 == last_id + 1 && connect_start(
            url,
            fault,
            last_id,
        ).1 is None,
        fault matches Some(e) ==> connect_start(url, fault, last_id).0 == 0 && connect_start(
            url,
            fault,
            last_id,
        ).1 == Some("invalid ws url '"@ + url + "': "@ + e),
{
}

} // verus!
