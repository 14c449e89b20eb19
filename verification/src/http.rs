//! HTTP requests of a script.
//!
//! A script asks for a request with its method, address, headers, body and a JSON
//! object of further parameters. [`begin_request`] and [`begin_batch`] turn that
//! into a [`Call`], which the host sends. [`finish_request`] and [`finish_batch`]
//! take what came back, record its samples and build what the script sees.

use crate::binary64;
use crate::binary64::Binary64;
use crate::encoding;
use crate::headers;
use crate::http_samples;
use crate::http_samples::{RedirectHop, Timings};
use crate::json;
use crate::json::Json;
use crate::samples;
use crate::samples::Sample;
use crate::string_map;
use crate::string_map::StringMap;
use crate::text;
use vstd::prelude::*;
use vstd::string::*;
use vstd::utf8::*;

verus! {

// ── parameters ──

/// The parameters of a request.
#[derive(Debug)]
pub struct K6RequestExtras {
    /// Milliseconds; none where it is not positive.
    pub timeout_ms: Binary64,
    pub tags: StringMap<String>,
    /// The JSON text of the credentials.
    pub auth: Option<String>,
    /// How many redirects are followed; `-1` for as many as there are.
    pub redirects: i64,
    pub compression: String,
    /// Whether the body is base64.
    pub body_b64: bool,
}

#[verifier::ext_equal]
pub struct ExtrasView {
    pub timeout_ms: Binary64,
    pub tags: Map<Seq<char>, Seq<char>>,
    pub auth: Option<Seq<char>>,
    pub redirects: i64,
    pub compression: Seq<char>,
    pub body_b64: bool,
}

impl View for K6RequestExtras {
    type V = ExtrasView;

    open spec fn view(&self) -> ExtrasView {
        ExtrasView {
            timeout_ms: self.timeout_ms,
            tags: string_map::texts(self.tags@),
            auth: text::opt_text(self.auth),
            redirects: self.redirects,
            compression: self.compression@,
            body_b64: self.body_b64,
        }
    }
}

/// The parameters that a document declares. A member of another kind than the
/// one that is meant counts as absent.
pub open spec fn extras_of(doc: json::JsonView) -> ExtrasView {
    ExtrasView {
        timeout_ms: match json::as_number(json::member(doc, "timeoutMs"@)) {
            Some(json::JsonNumber { real: Some(x), int: _ }) => x,
            _ => Binary64 { bits: 0 },
        },
        tags: http_samples::with_document(Map::empty(), json::member(doc, "tags"@)),
        auth: match json::member(doc, "auth"@) {
            Some(a) => if a.node is Null {
                None
            } else {
                Some(a.text)
            },
            None => None,
        },
        redirects: match json::as_number(json::member(doc, "redirects"@)) {
            Some(json::JsonNumber { int: Some(n), real: _ }) => n,
            _ => -1i64,
        },
        compression: headers::text_or_empty(json::text_member(doc, "compression"@)),
        body_b64: json::as_bool(json::member(doc, "bodyB64"@)) == Some(true),
    }
}

/// The parameters that a document declares.
pub fn parse_k6_extras(extras: &Json) -> (r: K6RequestExtras)
    ensures
        r@ == extras_of(extras@),
{
    let timeout_ms = match extras.get("timeoutMs") {
        Some(t) => match t.as_number() {
            Some(n) => match n.real {
                Some(x) => x,
                None => Binary64 { bits: 0 },
            },
            None => Binary64 { bits: 0 },
        },
        None => Binary64 { bits: 0 },
    };
    let mut tags: StringMap<String> = StringMap::new();
    assert(string_map::texts(tags@) =~= Map::empty());
    if let Some(t) = extras.get("tags") {
        http_samples::add_document(t, &mut tags);
    }
    let auth = match extras.get("auth") {
        Some(a) => if a.is_null() {
            None
        } else {
            Some(a.text.clone())
        },
        None => None,
    };
    let redirects: i64 = match extras.get("redirects") {
        Some(r) => match r.as_number() {
            Some(n) => match n.int {
                Some(n) => n,
                None => -1,
            },
            None => -1,
        },
        None => -1,
    };
    let compression = match extras.text_of("compression") {
        Some(c) => c.to_owned(),
        None => String::new(),
    };
    let body_b64 = match extras.get("bodyB64") {
        Some(b) => match b.as_bool() {
            Some(b) => b,
            None => false,
        },
        None => false,
    };
    K6RequestExtras { timeout_ms, tags, auth, redirects, compression, body_b64 }
}

// ── requests ──

/// The body of a request.
#[derive(Debug)]
pub enum Body {
    Raw(String),
    Binary(Vec<u8>),
    UrlEncoded(StringMap<String>),
}

#[verifier::ext_equal]
pub enum BodyView {
    Raw(Seq<char>),
    Binary(Seq<u8>),
    UrlEncoded(Map<Seq<char>, Seq<char>>),
}

impl View for Body {
    type V = BodyView;

    open spec fn view(&self) -> BodyView {
        match *self {
            Body::Raw(s) => BodyView::Raw(s@),
            Body::Binary(b) => BodyView::Binary(b@),
            Body::UrlEncoded(m) => BodyView::UrlEncoded(string_map::texts(m@)),
        }
    }
}

pub open spec fn opt_body(body: Option<Body>) -> Option<BodyView> {
    match body {
        Some(b) => Some(b@),
        None => None,
    }
}

/// A request that the host sends.
#[derive(Debug)]
pub struct Request {
    pub url: String,
    pub method: String,
    pub headers: Vec<(String, String)>,
    pub query_params: StringMap<String>,
    pub body: Option<Body>,
    /// The JSON text of the credentials.
    pub auth: Option<String>,
    pub follow_redirects: bool,
    /// Milliseconds.
    pub timeout: Option<u64>,
    /// `text`, `binary` or `none`, as the script has it.
    pub response_type: String,
}

#[verifier::ext_equal]
pub struct RequestView {
    pub url: Seq<char>,
    pub method: Seq<char>,
    pub headers: Seq<(Seq<char>, Seq<char>)>,
    pub query_params: Map<Seq<char>, Seq<char>>,
    pub body: Option<BodyView>,
    pub auth: Option<Seq<char>>,
    pub follow_redirects: bool,
    pub timeout: Option<u64>,
    pub response_type: Seq<char>,
}

impl View for Request {
    type V = RequestView;

    open spec fn view(&self) -> RequestView {
        RequestView {
            url: self.url@,
            method: self.method@,
            headers: headers::pair_views(self.headers@),
            query_params: string_map::texts(self.query_params@),
            body: opt_body(self.body),
            auth: text::opt_text(self.auth),
            follow_redirects: self.follow_redirects,
            timeout: self.timeout,
            response_type: self.response_type@,
        }
    }
}

/// What compression of `kind` makes of a body. An empty body and an unknown kind
/// are not compressed.
pub open spec fn compressed(kind: Seq<char>, data: Seq<u8>) -> Option<Seq<u8>> {
    if data.len() == 0 {
        None
    } else if text::contains(kind, "gzip"@) {
        Some(encoding::gzip_bytes(data))
    } else if text::contains(kind, "deflate"@) {
        Some(encoding::deflate_bytes(data))
    } else {
        None
    }
}

/// Compresses a body. The stream is that of no other body.
pub fn compress_k6_body(kind: &str, data: &[u8]) -> (r: Option<Vec<u8>>)
    ensures
        encoding::opt_bytes(r) == compressed(kind@, data@),
        match r {
            Some(stream) => if text::contains(kind@, "gzip"@) {
                encoding::gunzipped(stream@) == data@
            } else {
                encoding::inflated(stream@) == data@
            },
            None => data@.len() == 0 || !(text::contains(kind@, "gzip"@) || text::contains(
                kind@,
                "deflate"@,
            )),
        },
{
    if data.len() == 0 {
        None
    } else if text::has(kind, "gzip") {
        encoding::gzip(data)
    } else if text::has(kind, "deflate") {
        encoding::deflate(data)
    } else {
        None
    }
}

/// The body that a script passes, given what its base64 stands for.
pub open spec fn script_body(body: Seq<char>, b64: bool, decoded: Option<Seq<u8>>) -> Option<
    BodyView,
> {
    if body.len() == 0 {
        None
    } else if b64 {
        match decoded {
            Some(bytes) => Some(BodyView::Binary(bytes)),
            None => None,
        }
    } else {
        Some(BodyView::Raw(body))
    }
}

/// The body that a script passes, given what its base64 stands for.
pub fn read_body(body: &str, b64: bool, decoded: Option<Vec<u8>>) -> (r: Option<Body>)
    ensures
        opt_body(r) == script_body(body@, b64, encoding::opt_bytes(decoded)),
{
    if text::empty(body) {
        None
    } else if b64 {
        match decoded {
            Some(bytes) => Some(Body::Binary(bytes)),
            None => None,
        }
    } else {
        Some(Body::Raw(body.to_owned()))
    }
}

/// The header that tells the compression of a body.
pub open spec fn encoding_header(kind: Seq<char>) -> (Seq<char>, Seq<char>) {
    (
        "Content-Encoding"@,
        if text::contains(kind, "gzip"@) {
            "gzip"@
        } else {
            "deflate"@
        },
    )
}

/// A body and the headers beside it, given what compression made of the body.
/// Only a text body is compressed.
pub open spec fn packed(
    body: Option<BodyView>,
    headers: Seq<(Seq<char>, Seq<char>)>,
    kind: Seq<char>,
    small: Option<Seq<u8>>,
) -> (Option<BodyView>, Seq<(Seq<char>, Seq<char>)>) {
    match (body, small) {
        (Some(BodyView::Raw(_)), Some(bytes)) => if kind.len() > 0 {
            (Some(BodyView::Binary(bytes)), headers.push(encoding_header(kind)))
        } else {
            (body, headers)
        },
        _ => (body, headers),
    }
}

/// Packs a body, given what compression made of it.
pub fn pack_body(
    body: Option<Body>,
    headers: Vec<(String, String)>,
    kind: &str,
    small: Option<Vec<u8>>,
) -> (r: (Option<Body>, Vec<(String, String)>))
    ensures
        (opt_body(r.0), headers::pair_views(r.1@)) == packed(
            opt_body(body),
            headers::pair_views(headers@),
            kind@,
            encoding::opt_bytes(small),
        ),
{
    if text::empty(kind) {
        return (body, headers);
    }
    match small {
        Some(bytes) => match body {
            Some(Body::Raw(_)) => {
                let name = if text::has(kind, "gzip") {
                    "gzip"
                } else {
                    "deflate"
                };
                let ghost before = headers::pair_views(headers@);
                let mut all = headers;
                all.push(("Content-Encoding".to_owned(), name.to_owned()));
                assert(headers::pair_views(all@) =~= before.push(encoding_header(kind@)));
                (Some(Body::Binary(bytes)), all)
            },
            other => (other, headers),
        },
        None => (body, headers),
    }
}

/// The time that a request may take, in milliseconds.
pub open spec fn timeout_of(ms: Binary64) -> Option<u64> {
    if binary64::is_positive(ms) {
        Some(binary64::saturated(ms, u64::MAX as nat) as u64)
    } else {
        None
    }
}

/// What the outside encodings made of a body.
pub struct EncodedView {
    /// What the base64 of the body stands for.
    pub decoded: Option<Seq<u8>>,
    /// What compression made of the text of the body.
    pub small: Option<Seq<u8>>,
}

/// The request of a script. `parsed` is the method as the host reads it; a method
/// that it refuses is kept as the script has it. `declared` are the headers that
/// the script declares.
pub open spec fn k6_request(
    method: Seq<char>,
    parsed: Option<Seq<char>>,
    url: Seq<char>,
    declared: Seq<(Seq<char>, Seq<char>)>,
    body: Seq<char>,
    response_type: Seq<char>,
    params: ExtrasView,
    encoded: EncodedView,
) -> RequestView {
    let (body, headers) = packed(
        script_body(body, params.body_b64, encoded.decoded),
        declared,
        params.compression,
        encoded.small,
    );
    RequestView {
        url,
        method: match parsed {
            Some(m) => m,
            None => method,
        },
        headers,
        query_params: Map::empty(),
        body,
        auth: params.auth,
        follow_redirects: params.redirects != 0,
        timeout: timeout_of(params.timeout_ms),
        response_type,
    }
}

/// Why a request is not sent: the host refuses its method.
pub open spec fn method_fault(method: Seq<char>, parsed: Option<Seq<char>>) -> Option<Seq<char>> {
    match parsed {
        Some(_) => None,
        None => Some("invalid HTTP method "@ + method),
    }
}

/// What the outside encodings make of a body.
pub open spec fn encoded_body(body: Seq<char>, params: ExtrasView) -> EncodedView {
    EncodedView {
        decoded: encoding::base64_bytes(body),
        small: compressed(params.compression, encode_utf8(body)),
    }
}

/// Builds a request from what the outside encodings made of its body.
pub fn assemble_request(
    method: &str,
    parsed: Option<String>,
    url: &str,
    declared: Vec<(String, String)>,
    body: &str,
    response_type: &str,
    params: &K6RequestExtras,
    decoded: Option<Vec<u8>>,
    small: Option<Vec<u8>>,
) -> (r: Request)
    ensures
        r@ == k6_request(
            method@,
            text::opt_text(parsed),
            url@,
            headers::pair_views(declared@),
            body@,
            response_type@,
            params@,
            (EncodedView {
                decoded: encoding::opt_bytes(decoded),
                small: encoding::opt_bytes(small),
            }),
        ),
{
    let read = read_body(body, params.body_b64, decoded);
    let (body, headers) = pack_body(read, declared, params.compression.as_str(), small);
    let timeout = if params.timeout_ms.positive() {
        Some(params.timeout_ms.to_u64())
    } else {
        None
    };
    let method = match parsed {
        Some(m) => m,
        None => method.to_owned(),
    };
    let query_params: StringMap<String> = StringMap::new();
    assert(string_map::texts(query_params@) =~= Map::empty());
    Request {
        url: url.to_owned(),
        method,
        headers,
        query_params,
        body,
        auth: text::copied(&params.auth),
        follow_redirects: params.redirects != 0,
        timeout,
        response_type: response_type.to_owned(),
    }
}

/// Builds the request of a script, with its parameters, and says why it is not to
/// be sent, if so.
pub fn build_k6_request(
    method: &str,
    parsed: Option<String>,
    url: &str,
    headers_json: &str,
    body: &str,
    response_type: &str,
    extras: &Json,
) -> (r: (Request, K6RequestExtras, Option<String>))
    ensures
        r.1@ == extras_of(extras@),
        r.0@ == k6_request(
            method@,
            text::opt_text(parsed),
            url@,
            headers::declared_headers(headers_json@, json::json_document(headers_json@)),
            body@,
            response_type@,
            extras_of(extras@),
            encoded_body(body@, extras_of(extras@)),
        ),
        text::opt_text(r.2) == method_fault(method@, text::opt_text(parsed)),
{
    let params = parse_k6_extras(extras);
    let fault = match &parsed {
        Some(_) => None,
        None => Some(text::cat("invalid HTTP method ", method)),
    };
    let declared = headers::parse_headers_tolerant(headers_json);
    let decoded = if params.body_b64 {
        encoding::from_base64(body)
    } else {
        None
    };
    let small = if params.body_b64 {
        None
    } else {
        compress_k6_body(params.compression.as_str(), body.as_bytes())
    };
    let request = assemble_request(
        method,
        parsed,
        url,
        declared,
        body,
        response_type,
        &params,
        decoded,
        small,
    );
    (request, params, fault)
}

// ── responses ──

/// The size of the heap that the script engine of a virtual user has, in bytes.
pub const K6_VU_HEAP_BYTES: usize = 10_485_760;

/// A cookie of a response.
#[derive(Debug)]
pub struct Cookie {
    pub name: String,
    pub value: String,
    pub domain: Option<String>,
    pub path: Option<String>,
    pub http_only: Option<bool>,
    pub secure: Option<bool>,
    pub expires: Option<String>,
    pub same_site: Option<String>,
}

#[verifier::ext_equal]
pub struct CookieView {
    pub name: Seq<char>,
    pub value: Seq<char>,
    pub domain: Option<Seq<char>>,
    pub path: Option<Seq<char>>,
    pub http_only: Option<bool>,
    pub secure: Option<bool>,
    pub expires: Option<Seq<char>>,
    pub same_site: Option<Seq<char>>,
}

impl View for Cookie {
    type V = CookieView;

    open spec fn view(&self) -> CookieView {
        CookieView {
            name: self.name@,
            value: self.value@,
            domain: text::opt_text(self.domain),
            path: text::opt_text(self.path),
            http_only: self.http_only,
            secure: self.secure,
            expires: text::opt_text(self.expires),
            same_site: text::opt_text(self.same_site),
        }
    }
}

impl Cookie {
    fn copy(&self) -> (r: Cookie)
        ensures
            r@ == self@,
    {
        Cookie {
            name: self.name.clone(),
            value: self.value.clone(),
            domain: text::copied(&self.domain),
            path: text::copied(&self.path),
            http_only: self.http_only,
            secure: self.secure,
            expires: text::copied(&self.expires),
            same_site: text::copied(&self.same_site),
        }
    }
}

pub open spec fn cookie_views(cookies: Seq<Cookie>) -> Seq<CookieView> {
    cookies.map_values(|c: Cookie| c@)
}

/// The cookies with a name, in order.
pub open spec fn cookies_named(cookies: Seq<CookieView>, name: Seq<char>) -> Seq<CookieView>
    decreases cookies.len(),
{
    if cookies.len() == 0 {
        Seq::empty()
    } else {
        let before = cookies_named(cookies.drop_last(), name);
        if cookies.last().name == name {
            before.push(cookies.last())
        } else {
            before
        }
    }
}

/// A cookie has the name.
pub open spec fn has_cookie(cookies: Seq<CookieView>, name: Seq<char>) -> bool {
    exists|i: int| 0 <= i < cookies.len() && (#[trigger] cookies[i]).name == name
}

/// The cookies by their names.
pub open spec fn cookie_groups(cookies: Seq<CookieView>) -> Map<Seq<char>, Seq<CookieView>> {
    Map::new(
        |name: Seq<char>| has_cookie(cookies, name),
        |name: Seq<char>| cookies_named(cookies, name),
    )
}

/// The names of the cookies, in the order in which each came first.
pub open spec fn cookie_names(cookies: Seq<CookieView>) -> Seq<Seq<char>>
    decreases cookies.len(),
{
    if cookies.len() == 0 {
        Seq::empty()
    } else {
        let before = cookie_names(cookies.drop_last());
        if has_cookie(cookies.drop_last(), cookies.last().name) {
            before
        } else {
            before.push(cookies.last().name)
        }
    }
}

pub open spec fn cookie_map(m: Map<Seq<char>, Vec<Cookie>>) -> Map<Seq<char>, Seq<CookieView>> {
    m.map_values(|v: Vec<Cookie>| cookie_views(v@))
}

fn select_cookies(cookies: &Vec<Cookie>, name: &str) -> (r: Vec<Cookie>)
    ensures
        cookie_views(r@) == cookies_named(cookie_views(cookies@), name@),
{
    let ghost all = cookie_views(cookies@);
    let mut r: Vec<Cookie> = Vec::new();
    let mut i: usize = 0;
    assert(cookie_views(r@) =~= Seq::empty());
    while i < cookies.len()
        invariant
            i <= cookies@.len(),
            all == cookie_views(cookies@),
            cookie_views(r@) == cookies_named(all.take(i as int), name@),
        decreases cookies@.len() - i,
    {
        let ghost before = r@;
        assert(all.take(i + 1).drop_last() =~= all.take(i as int));
        assert(all.take(i + 1).last() == cookies@[i as int]@);
        if text::same_text(cookies[i].name.as_str(), name) {
            r.push(cookies[i].copy());
            assert(cookie_views(r@) =~= cookie_views(before).push(cookies@[i as int]@));
        }
        i += 1;
    }
    assert(all.take(cookies@.len() as int) =~= all);
    r
}

fn group_cookies(cookies: &Vec<Cookie>) -> (r: StringMap<Vec<Cookie>>)
    ensures
        cookie_map(r@) == cookie_groups(cookie_views(cookies@)),
        string_map::keys_of(r.order()) == cookie_names(cookie_views(cookies@)),
{
    let ghost all = cookie_views(cookies@);
    let mut r: StringMap<Vec<Cookie>> = StringMap::new();
    let mut i: usize = 0;
    assert(string_map::keys_of(r.order()) =~= Seq::empty());
    while i < cookies.len()
        invariant
            i <= cookies@.len(),
            all == cookie_views(cookies@),
            forall|n: Seq<char>| #[trigger]
                r@.contains_key(n) <==> has_cookie(all.take(i as int), n),
            forall|n: Seq<char>| #[trigger]
                r@.contains_key(n) ==> cookie_views(r@[n]@) == cookies_named(all, n),
            string_map::keys_of(r.order()) == cookie_names(all.take(i as int)),
        decreases cookies@.len() - i,
    {
        let name = cookies[i].name.as_str();
        let ghost was = r@;
        let ghost placed = r.order();
        assert(r@.contains_key(name@) <==> has_cookie(all.take(i as int), name@));
        if !r.contains_key(name) {
            r.insert(name.to_owned(), select_cookies(cookies, name));
            assert(string_map::keys_of(r.order()) =~= string_map::keys_of(placed).push(name@));
        }
        proof {
            let seen = all.take(i as int);
            let next = all.take(i + 1);
            assert(next.drop_last() =~= seen);
            assert(next[i as int].name == name@);
            assert forall|n: Seq<char>| #[trigger] r@.contains_key(n) <==> has_cookie(next, n) by {
                if has_cookie(seen, n) {
                    let k = choose|k: int| 0 <= k < seen.len() && (#[trigger] seen[k]).name == n;
                    assert(next[k] == seen[k]);
                }
                if has_cookie(next, n) {
                    let k = choose|k: int| 0 <= k < next.len() && (#[trigger] next[k]).name == n;
                    if k < i {
                        assert(seen[k] == next[k]);
                    }
                }
                assert(was.contains_key(n) <==> has_cookie(seen, n));
            }
        }
        i += 1;
    }
    proof {
        assert(all.take(cookies@.len() as int) =~= all);
        assert forall|n: Seq<char>| #[trigger] r@.contains_key(n) <==> has_cookie(all, n) by {}
        assert(cookie_map(r@) =~= cookie_groups(all));
    }
    r
}

/// The body that a script sees.
#[derive(Debug)]
pub enum ShownBody {
    Text(String),
    Bytes(Vec<u8>),
}

#[verifier::ext_equal]
pub enum ShownView {
    Text(Seq<char>),
    Bytes(Seq<u8>),
}

impl View for ShownBody {
    type V = ShownView;

    open spec fn view(&self) -> ShownView {
        match *self {
            ShownBody::Text(s) => ShownView::Text(s@),
            ShownBody::Bytes(b) => ShownView::Bytes(b@),
        }
    }
}

/// What a script sees of a response.
#[derive(Debug)]
pub struct K6Response {
    pub status: u16,
    pub status_text: String,
    pub error: String,
    pub error_code: i32,
    pub headers: StringMap<String>,
    pub body: ShownBody,
    /// Nanoseconds.
    pub response_time: u128,
    /// The cookies by their names; none in the stead of a response that the heap
    /// cannot hold.
    pub cookies: Option<StringMap<Vec<Cookie>>>,
    pub timings: Option<Timings>,
}

#[verifier::ext_equal]
pub struct K6ResponseView {
    pub status: u16,
    pub status_text: Seq<char>,
    pub error: Seq<char>,
    pub error_code: i32,
    pub headers: Map<Seq<char>, Seq<char>>,
    pub body: ShownView,
    pub response_time: u128,
    pub cookies: Option<Map<Seq<char>, Seq<CookieView>>>,
    /// The names of the cookies, in order.
    pub cookie_names: Seq<Seq<char>>,
    pub timings: Option<Timings>,
}

impl View for K6Response {
    type V = K6ResponseView;

    open spec fn view(&self) -> K6ResponseView {
        K6ResponseView {
            status: self.status,
            status_text: self.status_text@,
            error: self.error@,
            error_code: self.error_code,
            headers: string_map::texts(self.headers@),
            body: self.body@,
            response_time: self.response_time,
            cookies: match self.cookies {
                Some(m) => Some(cookie_map(m@)),
                None => None,
            },
            cookie_names: match self.cookies {
                Some(m) => string_map::keys_of(m.order()),
                None => Seq::empty(),
            },
            timings: self.timings,
        }
    }
}

/// The code of an error, by what its message speaks of.
pub open spec fn error_code_of(msg: Seq<char>) -> i32 {
    let m = text::lower(msg);
    if text::contains(m, "dns"@) || text::contains(m, "nodename"@) || text::contains(
        m,
        "resolve"@,
    ) {
        1100
    } else if text::contains(m, "timed out"@) || text::contains(m, "timeout"@) || text::contains(
        m,
        "deadline"@,
    ) {
        1050
    } else if text::contains(m, "tls"@) || text::contains(m, "certificate"@) || text::contains(
        m,
        "handshake"@,
    ) {
        1300
    } else if text::contains(m, "http2"@) || text::contains(m, "h2"@) {
        1600
    } else if text::contains(m, "connect"@) || text::contains(m, "refused"@) || text::contains(
        m,
        "reset"@,
    ) {
        1200
    } else if text::contains(m, "url"@) || text::contains(m, "uri"@) {
        1010
    } else {
        1000
    }
}

/// The code of an error: 1100 for name resolution, 1050 for a timeout, 1300 for
/// TLS, 1600 for HTTP/2, 1200 for the connection, 1010 for the address, and 1000
/// for anything else.
pub fn k6_error_code(msg: &str) -> (r: i32)
    ensures
        r == error_code_of(msg@),
{
    let lowered = text::lowered(msg);
    let m = lowered.as_str();
    if text::has(m, "dns") || text::has(m, "nodename") || text::has(m, "resolve") {
        1100
    } else if text::has(m, "timed out") || text::has(m, "timeout") || text::has(m, "deadline") {
        1050
    } else if text::has(m, "tls") || text::has(m, "certificate") || text::has(m, "handshake") {
        1300
    } else if text::has(m, "http2") || text::has(m, "h2") {
        1600
    } else if text::has(m, "connect") || text::has(m, "refused") || text::has(m, "reset") {
        1200
    } else if text::has(m, "url") || text::has(m, "uri") {
        1010
    } else {
        1000
    }
}

/// What a script sees in the stead of a response that cannot be shown.
pub open spec fn envelope(msg: Seq<char>, binary: bool) -> K6ResponseView {
    K6ResponseView {
        status: 0,
        status_text: msg,
        error: msg,
        error_code: error_code_of(msg),
        headers: Map::empty(),
        body: if binary {
            ShownView::Bytes(Seq::empty())
        } else {
            ShownView::Text(Seq::empty())
        },
        response_time: 0,
        cookies: None,
        cookie_names: Seq::empty(),
        timings: None,
    }
}

/// What a script sees in the stead of a response that cannot be shown. Its body
/// is of the kind that the script asked for.
pub fn k6_error_envelope(msg: &str, binary: bool) -> (r: K6Response)
    ensures
        r@ == envelope(msg@, binary),
{
    let headers: StringMap<String> = StringMap::new();
    let no_bytes: Vec<u8> = Vec::new();
    assert(string_map::texts(headers@) =~= Map::empty());
    assert(no_bytes@ =~= Seq::empty());
    K6Response {
        status: 0,
        status_text: msg.to_owned(),
        error: msg.to_owned(),
        error_code: k6_error_code(msg),
        headers,
        body: if binary {
            ShownBody::Bytes(no_bytes)
        } else {
            ShownBody::Text(String::new())
        },
        response_time: 0,
        cookies: None,
        timings: None,
    }
}

/// Whether a script asks for the bytes of a response.
pub open spec fn wants_bytes(response_type: Seq<char>) -> bool {
    text::lower(response_type) == "binary"@
}

pub open spec fn too_large() -> Seq<char> {
    "response body exceeds the per-VU JS heap cap"@
}

/// The parts of a response that are shown as they are.
pub struct PlainView {
    pub status: u16,
    pub status_text: Seq<char>,
    pub headers: Map<Seq<char>, Seq<char>>,
    pub response_time: u128,
    pub timings: Option<Timings>,
    pub error: Seq<char>,
    pub error_code: i32,
    pub cookies: Seq<CookieView>,
}

/// A response with the body that is shown.
pub open spec fn shown(plain: PlainView, body: ShownView) -> K6ResponseView {
    K6ResponseView {
        status: plain.status,
        status_text: plain.status_text,
        error: plain.error,
        error_code: plain.error_code,
        headers: plain.headers,
        body,
        response_time: plain.response_time,
        cookies: Some(cookie_groups(plain.cookies)),
        cookie_names: cookie_names(plain.cookies),
        timings: plain.timings,
    }
}

/// What a script sees of a response, given the text of its body. A body as large
/// as the whole heap is not shown: the script sees an error in its stead.
pub open spec fn shown_response(
    plain: PlainView,
    body: Seq<u8>,
    body_text: Seq<char>,
    response_type: Seq<char>,
) -> K6ResponseView {
    if body.len() >= K6_VU_HEAP_BYTES {
        envelope(too_large(), wants_bytes(response_type))
    } else if wants_bytes(response_type) {
        shown(plain, ShownView::Bytes(body))
    } else {
        shown(plain, ShownView::Text(body_text))
    }
}

/// A response with the body that is shown.
pub fn response_with_body(
    status: u16,
    status_text: &str,
    headers: &StringMap<String>,
    response_time: u128,
    timings: Option<Timings>,
    error: &str,
    error_code: i32,
    cookies: &Vec<Cookie>,
    body: ShownBody,
) -> (r: K6Response)
    ensures
        r@ == shown(
            (PlainView {
                status,
                status_text: status_text@,
                headers: string_map::texts(headers@),
                response_time,
                timings,
                error: error@,
                error_code,
                cookies: cookie_views(cookies@),
            }),
            body@,
        ),
{
    K6Response {
        status,
        status_text: status_text.to_owned(),
        error: error.to_owned(),
        error_code,
        headers: headers.copy(),
        body,
        response_time,
        cookies: Some(group_cookies(cookies)),
        timings,
    }
}

/// What a script sees of a response.
pub fn build_k6_response_object(
    status: u16,
    status_text: &str,
    body: Vec<u8>,
    headers: &StringMap<String>,
    response_time: u128,
    timings: Option<Timings>,
    error: &str,
    error_code: i32,
    response_type: &str,
    cookies: &Vec<Cookie>,
) -> (r: K6Response)
    ensures
        r@ == shown_response(
            (PlainView {
                status,
                status_text: status_text@,
                headers: string_map::texts(headers@),
                response_time,
                timings,
                error: error@,
                error_code,
                cookies: cookie_views(cookies@),
            }),
            body@,
            encoding::text_of(body@),
            response_type@,
        ),
{
    let lowered = text::lowered(response_type);
    let binary = text::same_text(lowered.as_str(), "binary");
    if body.len() >= K6_VU_HEAP_BYTES {
        return k6_error_envelope("response body exceeds the per-VU JS heap cap", binary);
    }
    let shown_body = if binary {
        ShownBody::Bytes(body)
    } else {
        ShownBody::Text(encoding::from_lossy(body.as_slice()))
    };
    response_with_body(
        status,
        status_text,
        headers,
        response_time,
        timings,
        error,
        error_code,
        cookies,
        shown_body,
    )
}

// ── calls ──

/// A request on its way.
#[derive(Debug)]
pub struct Call {
    pub request: Request,
    /// The tags that the script passes.
    pub tags: StringMap<String>,
    pub response_type: String,
    /// Why the request is not to be sent.
    pub fault: Option<String>,
}

#[verifier::ext_equal]
pub struct CallView {
    pub request: RequestView,
    pub tags: Map<Seq<char>, Seq<char>>,
    pub response_type: Seq<char>,
    pub fault: Option<Seq<char>>,
}

impl View for Call {
    type V = CallView;

    open spec fn view(&self) -> CallView {
        CallView {
            request: self.request@,
            tags: string_map::texts(self.tags@),
            response_type: self.response_type@,
            fault: text::opt_text(self.fault),
        }
    }
}

impl Call {
    /// Settles the credentials, given whether the host can read them. Those that it
    /// cannot read are not sent.
    pub fn settle_auth(&mut self, readable: bool)
        ensures
            final(self)@ == (CallView {
                request: RequestView {
                    auth: if readable {
                        old(self)@.request.auth
                    } else {
                        None
                    },
                    ..old(self)@.request
                },
                ..old(self)@
            }),
    {
        if !readable {
            self.request.auth = None;
        }
    }
}

/// A response that the host got.
#[derive(Debug)]
pub struct HttpResponse {
    pub status_code: u16,
    pub status_text: String,
    pub headers: StringMap<String>,
    pub body: Vec<u8>,
    /// Nanoseconds.
    pub response_time: u128,
    /// Bytes on the wire.
    pub size: u64,
    pub timings: Option<Timings>,
    pub redirects: Vec<RedirectHop>,
    pub cookies: Vec<Cookie>,
}

/// What came of a request: a response, or the message of an error.
#[derive(Debug)]
pub enum Outcome {
    Response(HttpResponse),
    Error(String),
}

/// An attempt to send a request.
#[derive(Debug)]
pub struct Attempt {
    pub outcome: Outcome,
    /// Nanoseconds until the outcome.
    pub elapsed: u128,
    /// Bytes of the body on the wire.
    pub sent: u64,
}

/// What a request is sent in: a scenario and a group, at a time.
pub struct SettingView {
    pub scenario: Seq<char>,
    pub group: Option<Seq<char>>,
    pub now: u64,
}

/// The parameters that a JSON text declares. A text that is no JSON declares none.
pub open spec fn extras_document(doc: Option<json::JsonView>) -> json::JsonView {
    match doc {
        Some(doc) => doc,
        None => json::JsonView { text: "null"@, node: json::NodeView::Null },
    }
}

/// The call of a request with the given parameters.
pub open spec fn call_of(
    method: Seq<char>,
    parsed: Option<Seq<char>>,
    url: Seq<char>,
    declared: Seq<(Seq<char>, Seq<char>)>,
    body: Seq<char>,
    response_type: Seq<char>,
    extras: json::JsonView,
    encoded: EncodedView,
) -> CallView {
    CallView {
        request: k6_request(
            method,
            parsed,
            url,
            declared,
            body,
            response_type,
            extras_of(extras),
            encoded,
        ),
        tags: extras_of(extras).tags,
        response_type,
        fault: method_fault(method, parsed),
    }
}

/// The call of a request with the given parameters, read by the outside readers.
pub open spec fn read_call(
    method: Seq<char>,
    parsed: Option<Seq<char>>,
    url: Seq<char>,
    headers_json: Seq<char>,
    body: Seq<char>,
    response_type: Seq<char>,
    extras: json::JsonView,
) -> CallView {
    call_of(
        method,
        parsed,
        url,
        headers::declared_headers(headers_json, json::json_document(headers_json)),
        body,
        response_type,
        extras,
        encoded_body(body, extras_of(extras)),
    )
}

/// The samples of an attempt: those of the hops and of the response, or those of
/// the failure.
pub open spec fn attempt_samples(call: CallView, attempt: Attempt, at: SettingView) -> Seq<
    samples::SampleView,
> {
    let extra = Some(call.tags);
    let failure = http_samples::failure_samples(
        attempt.elapsed,
        attempt.sent,
        http_samples::http_tag_map(
            call.request.url,
            call.request.method,
            "0"@,
            at.scenario,
            extra,
            at.group,
        ),
        at.now,
    );
    match (call.fault, attempt.outcome) {
        (None, Outcome::Response(r)) => {
            http_samples::hop_samples(
                http_samples::hop_views(r.redirects@),
                call.request.method,
                at.scenario,
                extra,
                at.group,
                at.now,
            ) + http_samples::response_samples(
                r.status_code,
                r.response_time,
                r.size,
                attempt.sent,
                r.timings,
                http_samples::http_tag_map(
                    call.request.url,
                    call.request.method,
                    text::decimal(r.status_code as nat),
                    at.scenario,
                    extra,
                    at.group,
                ),
                at.now,
            )
        },
        _ => failure,
    }
}

/// What a script sees of a response that came.
pub open spec fn arrived(r: HttpResponse, response_type: Seq<char>) -> K6ResponseView {
    shown_response(
        PlainView {
            status: r.status_code,
            status_text: r.status_text@,
            headers: string_map::texts(r.headers@),
            response_time: r.response_time,
            timings: r.timings,
            error: Seq::empty(),
            error_code: 0,
            cookies: cookie_views(r.cookies@),
        },
        r.body@,
        encoding::text_of(r.body@),
        response_type,
    )
}

/// What a script sees where no response came.
pub open spec fn no_response(
    status_text: Seq<char>,
    error: Seq<char>,
    error_code: i32,
    response_type: Seq<char>,
) -> K6ResponseView {
    shown(
        PlainView {
            status: 0,
            status_text,
            headers: Map::empty(),
            response_time: 0,
            timings: None,
            error,
            error_code,
            cookies: Seq::empty(),
        },
        no_body(response_type),
    )
}

/// An empty body of the kind that a script asks for.
pub open spec fn no_body(response_type: Seq<char>) -> ShownView {
    if wants_bytes(response_type) {
        ShownView::Bytes(Seq::empty())
    } else {
        ShownView::Text(Seq::empty())
    }
}

/// What a script sees of a request that was not sent.
pub open spec fn refused(fault: Seq<char>, response_type: Seq<char>) -> K6ResponseView {
    no_response(fault, fault, 1000, response_type)
}

/// What a script sees of a request that failed.
pub open spec fn failed(error: Seq<char>, response_type: Seq<char>) -> K6ResponseView {
    no_response("HTTP error: "@ + error, error, error_code_of(error), response_type)
}

/// What a script sees of a single request.
pub open spec fn single_response(call: CallView, attempt: Attempt) -> K6ResponseView {
    match (call.fault, attempt.outcome) {
        (Some(fault), _) => refused(fault, call.response_type),
        (None, Outcome::Response(r)) => arrived(r, call.response_type),
        (None, Outcome::Error(e)) => failed(e@, call.response_type),
    }
}

/// What a script sees of a request of a batch.
pub open spec fn batch_response(call: CallView, attempt: Attempt) -> K6ResponseView {
    match (call.fault, attempt.outcome) {
        (Some(fault), _) => failed(fault, call.response_type),
        (None, Outcome::Response(r)) => arrived(r, call.response_type),
        (None, Outcome::Error(e)) => failed(e@, call.response_type),
    }
}

fn build_call(
    method: &str,
    parsed: Option<String>,
    url: &str,
    headers_json: &str,
    body: &str,
    response_type: &str,
    extras: &Json,
) -> (r: Call)
    ensures
        r@ == read_call(
            method@,
            text::opt_text(parsed),
            url@,
            headers_json@,
            body@,
            response_type@,
            extras@,
        ),
{
    let (request, params, fault) = build_k6_request(
        method,
        parsed,
        url,
        headers_json,
        body,
        response_type,
        extras,
    );
    Call { request, tags: params.tags, response_type: response_type.to_owned(), fault }
}

/// Begins a single request. A text of parameters that is no JSON declares none.
pub fn begin_request(
    method: &str,
    parsed: Option<String>,
    url: &str,
    headers_json: &str,
    body: &str,
    response_type: &str,
    extras_json: &str,
) -> (r: Call)
    ensures
        r@ == read_call(
            method@,
            text::opt_text(parsed),
            url@,
            headers_json@,
            body@,
            response_type@,
            extras_document(json::json_document(extras_json@)),
        ),
{
    let extras = match Json::parse(extras_json) {
        Some(doc) => doc,
        None => Json::null(),
    };
    build_call(method, parsed, url, headers_json, body, response_type, &extras)
}

fn record_attempt(
    sink: &mut Vec<Sample>,
    call: &Call,
    attempt: &Attempt,
    scenario: &str,
    group: Option<&str>,
    now: u64,
)
    ensures
        samples::views(final(sink)@) == samples::views(old(sink)@) + attempt_samples(
            call@,
            *attempt,
            (SettingView { scenario: scenario@, group: json::opt_view(group), now }),
        ),
{
    let url = call.request.url.as_str();
    let method = call.request.method.as_str();
    let tags = Some(&call.tags);
    let ghost start = samples::views(sink@);
    if call.fault.is_none() {
        if let Outcome::Response(r) = &attempt.outcome {
            http_samples::push_redirect_hops(
                sink,
                &r.redirects,
                method,
                scenario,
                tags,
                group,
                now,
            );
            http_samples::push_http_samples_for(
                sink,
                url,
                method,
                r.status_code,
                r.response_time,
                r.size,
                attempt.sent,
                r.timings,
                scenario,
                tags,
                group,
                now,
            );
            assert(samples::views(sink@) =~= start + attempt_samples(
                call@,
                *attempt,
                SettingView { scenario: scenario@, group: json::opt_view(group), now },
            ));
            return;
        }
    }
    http_samples::push_http_failure(
        sink,
        url,
        method,
        scenario,
        tags,
        group,
        attempt.elapsed,
        attempt.sent,
        now,
    );
}

fn show_none(status_text: &str, error: &str, error_code: i32, response_type: &str) -> (r: K6Response)
    ensures
        r@ == no_response(status_text@, error@, error_code, response_type@),
{
    let headers: StringMap<String> = StringMap::new();
    let cookies: Vec<Cookie> = Vec::new();
    let no_bytes: Vec<u8> = Vec::new();
    let lowered = text::lowered(response_type);
    let body = if text::same_text(lowered.as_str(), "binary") {
        ShownBody::Bytes(no_bytes)
    } else {
        ShownBody::Text(String::new())
    };
    assert(no_bytes@ =~= Seq::empty());
    assert(string_map::texts(headers@) =~= Map::empty());
    assert(cookie_views(cookies@) =~= Seq::empty());
    response_with_body(0, status_text, &headers, 0, None, error, error_code, &cookies, body)
}

fn show_failure(error: &str, response_type: &str) -> (r: K6Response)
    ensures
        r@ == failed(error@, response_type@),
{
    let status_text = text::cat("HTTP error: ", error);
    show_none(status_text.as_str(), error, k6_error_code(error), response_type)
}

fn show_arrival(r: HttpResponse, response_type: &str) -> (shown: K6Response)
    ensures
        shown@ == arrived(r, response_type@),
{
    proof {
        reveal_strlit("");
        assert(""@ =~= Seq::empty());
    }
    build_k6_response_object(
        r.status_code,
        r.status_text.as_str(),
        r.body,
        &r.headers,
        r.response_time,
        r.timings,
        "",
        0,
        response_type,
        &r.cookies,
    )
}

/// Ends a single request: records its samples, and gives what the script sees.
pub fn finish_request(
    sink: &mut Vec<Sample>,
    call: &Call,
    attempt: Attempt,
    scenario: &str,
    group: Option<&str>,
    now: u64,
) -> (r: K6Response)
    ensures
        samples::views(final(sink)@) == samples::views(old(sink)@) + attempt_samples(
            call@,
            attempt,
            (SettingView { scenario: scenario@, group: json::opt_view(group), now }),
        ),
        r@ == single_response(call@, attempt),
{
    record_attempt(sink, call, &attempt, scenario, group, now);
    let response_type = call.response_type.as_str();
    match &call.fault {
        Some(fault) => show_none(fault.as_str(), fault.as_str(), 1000, response_type),
        None => match attempt.outcome {
            Outcome::Response(r) => show_arrival(r, response_type),
            Outcome::Error(e) => show_failure(e.as_str(), response_type),
        },
    }
}

// ── batches ──

/// A request of a batch.
#[derive(Debug)]
pub struct BatchEntry {
    /// What the script finds the response by.
    pub key: String,
    pub method: String,
    pub url: String,
    pub headers_json: String,
    pub body: String,
    pub response_type: String,
    pub extras: Json,
}

#[verifier::ext_equal]
pub struct BatchEntryView {
    pub key: Seq<char>,
    pub method: Seq<char>,
    pub url: Seq<char>,
    pub headers_json: Seq<char>,
    pub body: Seq<char>,
    pub response_type: Seq<char>,
    pub extras: json::JsonView,
}

impl View for BatchEntry {
    type V = BatchEntryView;

    open spec fn view(&self) -> BatchEntryView {
        BatchEntryView {
            key: self.key@,
            method: self.method@,
            url: self.url@,
            headers_json: self.headers_json@,
            body: self.body@,
            response_type: self.response_type@,
            extras: self.extras@,
        }
    }
}

/// The key of a request: a string as it is, and the JSON text of any other value.
pub open spec fn key_text(key: Option<json::JsonView>) -> Seq<char> {
    match key {
        Some(doc) => match doc.node {
            json::NodeView::Text(s) => s,
            _ => doc.text,
        },
        None => Seq::empty(),
    }
}

pub open spec fn member_or(doc: json::JsonView, key: Seq<char>, default: Seq<char>) -> Seq<char> {
    match json::text_member(doc, key) {
        Some(s) => s,
        None => default,
    }
}

/// The request that an item of a batch asks for, given the document that its
/// parameters hold.
pub open spec fn batch_entry(item: json::JsonView, extras: Option<json::JsonView>) -> BatchEntryView {
    BatchEntryView {
        key: key_text(json::member(item, "key"@)),
        method: member_or(item, "method"@, "GET"@),
        url: member_or(item, "url"@, Seq::empty()),
        headers_json: member_or(item, "headers_json"@, "{}"@),
        body: member_or(item, "body"@, Seq::empty()),
        response_type: member_or(item, "response_type"@, "text"@),
        extras: extras_document(extras),
    }
}

/// The document that the parameters of an item hold.
pub open spec fn item_extras(item: json::JsonView) -> Option<json::JsonView> {
    match json::text_member(item, "extras"@) {
        Some(s) => json::json_document(s),
        None => None,
    }
}

pub open spec fn entry_views(entries: Seq<BatchEntry>) -> Seq<BatchEntryView> {
    entries.map_values(|e: BatchEntry| e@)
}

/// The requests that a document asks for. Only a list asks for any.
pub open spec fn batch_of(doc: Option<json::JsonView>) -> Seq<BatchEntryView> {
    match json::as_array(doc) {
        Some(items) => items.map_values(
            |item: json::JsonView| batch_entry(item, item_extras(item)),
        ),
        None => Seq::empty(),
    }
}

fn text_or(item: &Json, key: &str, default: &str) -> (r: String)
    ensures
        r@ == member_or(item@, key@, default@),
{
    match item.text_of(key) {
        Some(s) => s.to_owned(),
        None => default.to_owned(),
    }
}

/// The request that an item of a batch asks for, given the document that its
/// parameters hold.
pub fn read_entry(item: &Json, extras: Option<Json>) -> (r: BatchEntry)
    ensures
        r@ == batch_entry(item@, json::opt_document(extras)),
{
    proof {
        reveal_strlit("");
        assert(""@ =~= Seq::empty());
    }
    let key = match item.get("key") {
        Some(k) => match k.as_str() {
            Some(s) => s.to_owned(),
            None => k.text.clone(),
        },
        None => String::new(),
    };
    BatchEntry {
        key,
        method: text_or(item, "method", "GET"),
        url: text_or(item, "url", ""),
        headers_json: text_or(item, "headers_json", "{}"),
        body: text_or(item, "body", ""),
        response_type: text_or(item, "response_type", "text"),
        extras: match extras {
            Some(doc) => doc,
            None => Json::null(),
        },
    }
}

/// The requests that a JSON text asks for.
pub fn begin_batch(requests_json: &str) -> (r: Vec<BatchEntry>)
    ensures
        entry_views(r@) == batch_of(json::json_document(requests_json@)),
{
    let mut r: Vec<BatchEntry> = Vec::new();
    assert(entry_views(r@) =~= Seq::empty());
    if let Some(doc) = Json::parse(requests_json) {
        if let Some(items) = doc.as_array() {
            let ghost want = batch_of(Some(doc@));
            let mut i: usize = 0;
            while i < items.len()
                invariant
                    i <= items@.len(),
                    want == json::items_view(items@).map_values(
                        |item: json::JsonView| batch_entry(item, item_extras(item)),
                    ),
                    entry_views(r@) == want.take(i as int),
                decreases items@.len() - i,
            {
                let extras = match items[i].text_of("extras") {
                    Some(s) => Json::parse(s),
                    None => None,
                };
                let entry = read_entry(&items[i], extras);
                let ghost before = r@;
                r.push(entry);
                assert(entry_views(r@) =~= entry_views(before).push(entry@));
                assert(want.take(i + 1) =~= want.take(i as int).push(want[i as int]));
                i += 1;
            }
            assert(want.take(items@.len() as int) =~= want);
        }
    }
    r
}

/// Begins a request of a batch.
pub fn begin_entry(entry: &BatchEntry, parsed: Option<String>) -> (r: Call)
    ensures
        r@ == read_call(
            entry@.method,
            text::opt_text(parsed),
            entry@.url,
            entry@.headers_json,
            entry@.body,
            entry@.response_type,
            entry@.extras,
        ),
{
    build_call(
        entry.method.as_str(),
        parsed,
        entry.url.as_str(),
        entry.headers_json.as_str(),
        entry.body.as_str(),
        entry.response_type.as_str(),
        &entry.extras,
    )
}

/// The key at `i` stands before `i` too.
pub open spec fn repeats(keys: Seq<Seq<char>>, i: int) -> bool {
    exists|j: int| 0 <= j < i && #[trigger] keys[j] == keys[i]
}

/// No key up to `n` repeats an earlier one.
pub open spec fn distinct_up_to(keys: Seq<Seq<char>>, n: int) -> bool {
    forall|i: int| 0 <= i < n ==> !#[trigger] repeats(keys, i)
}

/// The samples of the first `n` requests of a batch.
pub open spec fn batch_samples(
    calls: Seq<Call>,
    attempts: Seq<Attempt>,
    at: SettingView,
    n: nat,
) -> Seq<samples::SampleView>
    decreases n,
{
    if n == 0 {
        Seq::empty()
    } else {
        batch_samples(calls, attempts, at, (n - 1) as nat) + attempt_samples(
            calls[n - 1]@,
            attempts[n - 1],
            at,
        )
    }
}

/// What a script sees of the first `n` requests of a batch, by their keys.
pub open spec fn batch_responses(
    keys: Seq<Seq<char>>,
    calls: Seq<Call>,
    attempts: Seq<Attempt>,
    n: nat,
) -> Map<Seq<char>, K6ResponseView>
    decreases n,
{
    if n == 0 {
        Map::empty()
    } else {
        batch_responses(keys, calls, attempts, (n - 1) as nat).insert(
            keys[n - 1],
            batch_response(calls[n - 1]@, attempts[n - 1]),
        )
    }
}

pub open spec fn response_map(m: Map<Seq<char>, K6Response>) -> Map<Seq<char>, K6ResponseView> {
    m.map_values(|r: K6Response| r@)
}

proof fn lemma_response_insert(m: Map<Seq<char>, K6Response>, k: Seq<char>, r: K6Response)
    ensures
        response_map(m.insert(k, r)) == response_map(m).insert(k, r@),
{
    assert(response_map(m.insert(k, r)) =~= response_map(m).insert(k, r@));
}

/// Ends a batch. A key that stands twice is an error, and what follows it leaves
/// no samples.
pub fn finish_batch(
    sink: &mut Vec<Sample>,
    keys: &Vec<String>,
    calls: &Vec<Call>,
    attempts: Vec<Attempt>,
    scenario: &str,
    group: Option<&str>,
    now: u64,
) -> (r: Result<StringMap<K6Response>, String>)
    requires
        keys@.len() == calls@.len() == attempts@.len(),
    ensures
        match r {
            Ok(m) => {
                &&& distinct_up_to(text::views(keys@), keys@.len() as int)
                &&& response_map(m@) == batch_responses(
                    text::views(keys@),
                    calls@,
                    attempts@,
                    keys@.len(),
                )
                &&& string_map::keys_of(m.order()) == text::views(keys@)
                &&& samples::views(final(sink)@) == samples::views(old(sink)@) + batch_samples(
                    calls@,
                    attempts@,
                    SettingView { scenario: scenario@, group: json::opt_view(group), now },
                    keys@.len(),
                )
            },
            Err(key) => exists|n: nat|
                {
                    &&& n < keys@.len()
                    &&& distinct_up_to(text::views(keys@), n as int)
                    &&& #[trigger] repeats(text::views(keys@), n as int)
                    &&& key@ == keys@[n as int]@
                    &&& samples::views(final(sink)@) == samples::views(old(sink)@)
                        + batch_samples(
                        calls@,
                        attempts@,
                        SettingView { scenario: scenario@, group: json::opt_view(group), now },
                        n,
                    )
                },
        },
{
    let ghost at = SettingView { scenario: scenario@, group: json::opt_view(group), now };
    let ghost names = text::views(keys@);
    let ghost start = samples::views(sink@);
    let mut out: StringMap<K6Response> = StringMap::new();
    let n: usize = keys.len();
    let mut i: usize = 0;
    assert(response_map(out@) =~= Map::empty());
    assert(string_map::keys_of(out.order()) =~= names.take(0));
    assert(start + Seq::<samples::SampleView>::empty() =~= start);
    for attempt in it: attempts
        invariant
            it.seq() == attempts@,
            i == it.index(),
            i <= n == keys@.len() == calls@.len() == attempts@.len(),
            names == text::views(keys@),
            at == (SettingView { scenario: scenario@, group: json::opt_view(group), now }),
            start == samples::views(old(sink)@),
            distinct_up_to(names, i as int),
            forall|k: Seq<char>| #[trigger]
                out@.contains_key(k) <==> exists|j: int| 0 <= j < i && #[trigger] names[j] == k,
            response_map(out@) == batch_responses(names, calls@, attempts@, i as nat),
            string_map::keys_of(out.order()) == names.take(i as int),
            samples::views(sink@) == start + batch_samples(calls@, attempts@, at, i as nat),
    {
        let key = keys[i].as_str();
        assert(names[i as int] == key@);
        if out.contains_key(key) {
            assert(repeats(names, i as nat as int));
            return Err(key.to_owned());
        }
        assert(!repeats(names, i as int));
        let call = &calls[i];
        record_attempt(sink, call, &attempt, scenario, group, now);
        let response_type = call.response_type.as_str();
        let response = match &call.fault {
            Some(fault) => show_failure(fault.as_str(), response_type),
            None => match attempt.outcome {
                Outcome::Response(r) => show_arrival(r, response_type),
                Outcome::Error(e) => show_failure(e.as_str(), response_type),
            },
        };
        proof {
            lemma_response_insert(out@, key@, response);
            assert(samples::views(sink@) =~= start + batch_samples(
                calls@,
                attempts@,
                at,
                (i + 1) as nat,
            ));
        }
        let ghost was = out@;
        let ghost placed = out.order();
        out.insert(key.to_owned(), response);
        proof {
            assert(string_map::keys_of(out.order()) =~= string_map::keys_of(placed).push(key@));
            assert(names.take(i + 1) =~= names.take(i as int).push(key@));
            assert forall|k: Seq<char>| #[trigger] out@.contains_key(k) <==> exists|j: int|
                0 <= j < i + 1 && #[trigger] names[j] == k by {
                if k == key@ {
                    assert(names[i as int] == k);
                } else {
                    assert(was.contains_key(k) <==> out@.contains_key(k));
                }
            }
        }
        i = i + 1;
    }
    assert(names.take(keys@.len() as int) =~= names);
    Ok(out)
}

// ── laws ──

/// A request that the host refuses is not sent as another one: the script sees a
/// failed response with status 0, and the failure is counted.
pub proof fn law_refused_method_fails(
    method: Seq<char>,
    url: Seq<char>,
    headers_json: Seq<char>,
    body: Seq<char>,
    response_type: Seq<char>,
    extras: json::JsonView,
    attempt: Attempt,
    at: SettingView,
)
    ensures
        ({
            let call = read_call(method, None, url, headers_json, body, response_type, extras);
            let seen = single_response(call, attempt);
            &&& call.request.method == method
            &&& seen.status == 0
            &&& seen.error == "invalid HTTP method "@ + method
            &&& seen.error_code == 1000
            &&& http_samples::requests_counted(attempt_samples(call, attempt, at)) == 1
            &&& attempt_samples(call, attempt, at)[2].metric == "http_req_failed"@
            &&& attempt_samples(call, attempt, at)[2].value == samples::SampleValue::Flag(true)
        }),
{
    let call = read_call(method, None, url, headers_json, body, response_type, extras);
    http_samples::law_failure_is_one_request(
        attempt.elapsed,
        attempt.sent,
        http_samples::http_tag_map(
            call.request.url,
            call.request.method,
            "0"@,
            at.scenario,
            Some(call.tags),
            at.group,
        ),
        at.now,
    );
}

/// A body as large as the heap is shown as an error, and as an empty body of the
/// kind that the script asked for.
pub proof fn law_oversized_body_is_an_error(
    plain: PlainView,
    body: Seq<u8>,
    body_text: Seq<char>,
    response_type: Seq<char>,
)
    requires
        body.len() >= K6_VU_HEAP_BYTES,
    ensures
        ({
            let seen = shown_response(plain, body, body_text, response_type);
            &&& seen.status == 0
            &&& seen.error == too_large()
            &&& seen.body == no_body(response_type)
        }),
{
}

/// A response keeps every cookie: each one stands under its name, with the others
/// of that name, in order.
pub proof fn law_every_cookie_is_kept(cookies: Seq<CookieView>, i: int)
    requires
        0 <= i < cookies.len(),
    ensures
        cookie_groups(cookies).contains_key(cookies[i].name),
        cookie_groups(cookies)[cookies[i].name].contains(cookies[i]),
    decreases cookies.len(),
{
    let name = cookies[i].name;
    assert(has_cookie(cookies, name));
    let before = cookies_named(cookies.drop_last(), name);
    if i == cookies.len() - 1 {
        assert(cookies_named(cookies, name)[before.len() as int] == cookies[i]);
    } else {
        law_every_cookie_is_kept(cookies.drop_last(), i);
        let k = choose|k: int| 0 <= k < before.len() && before[k] == cookies[i];
        assert(cookies_named(cookies, name)[k] == cookies[i]);
    }
}

/// In a batch whose keys differ, each response stands under the key of its
/// request.
pub proof fn law_batch_keeps_every_response(
    keys: Seq<Seq<char>>,
    calls: Seq<Call>,
    attempts: Seq<Attempt>,
    n: nat,
    i: int,
)
    requires
        keys.len() == calls.len() == attempts.len(),
        n <= keys.len(),
        distinct_up_to(keys, n as int),
        0 <= i < n,
    ensures
        batch_responses(keys, calls, attempts, n).contains_key(keys[i]),
        batch_responses(keys, calls, attempts, n)[keys[i]] == batch_response(
            calls[i]@,
            attempts[i],
        ),
    decreases n,
{
    if i < n - 1 {
        assert(distinct_up_to(keys, n - 1));
        law_batch_keeps_every_response(keys, calls, attempts, (n - 1) as nat, i);
        assert(!repeats(keys, n - 1));
        assert(keys[i] != keys[n - 1]);
    }
}

/// A request follows redirects, unless its parameters set them to the integer 0.
pub proof fn law_redirects_are_followed(
    method: Seq<char>,
    parsed: Option<Seq<char>>,
    url: Seq<char>,
    headers_json: Seq<char>,
    body: Seq<char>,
    response_type: Seq<char>,
    extras: json::JsonView,
)
    ensures
        read_call(
            method,
            parsed,
            url,
            headers_json,
            body,
            response_type,
            extras,
        ).request.follow_redirects <==> !(json::member(extras, "redirects"@) matches Some(r)
            && r.node is Number && r.node->Number_0.int == Some(0i64)),
{
}

/// A request goes to the address that the script gives, with the method as the host
/// reads it, or as the script has it where the host refuses it, and with no
/// parameters beside the address. It is not sent exactly where the method is
/// refused.
pub proof fn law_request_goes_where_it_was_sent(
    method: Seq<char>,
    parsed: Option<Seq<char>>,
    url: Seq<char>,
    headers_json: Seq<char>,
    body: Seq<char>,
    response_type: Seq<char>,
    extras: json::JsonView,
)
    ensures
        ({
            let call = read_call(method, parsed, url, headers_json, body, response_type, extras);
            &&& call.request.url == url
            &&& parsed is Some ==> call.request.method == parsed->0
            &&& parsed is None ==> call.request.method == method
            &&& forall|k: Seq<char>| !#[trigger] call.request.query_params.contains_key(k)
            &&& call.request.response_type == response_type
            &&& call.response_type == response_type
            &&& call.fault is None <==> parsed is Some
            &&& call.fault is Some ==> call.fault->0 == "invalid HTTP method "@ + method
        }),
{
}

/// A request has the time that its parameters give it, in whole milliseconds, where
/// that is above zero, and any time otherwise.
pub proof fn law_timeout_is_kept(
    method: Seq<char>,
    parsed: Option<Seq<char>>,
    url: Seq<char>,
    headers_json: Seq<char>,
    body: Seq<char>,
    response_type: Seq<char>,
    extras: json::JsonView,
)
    ensures
        ({
            let timeout = read_call(
                method,
                parsed,
                url,
                headers_json,
                body,
                response_type,
                extras,
            ).request.timeout;
            match json::member(extras, "timeoutMs"@) {
                Some(
                    json::JsonView {
                        node: json::NodeView::Number(json::JsonNumber { real: Some(x), .. }),
                        ..
                    },
                ) => {
                    &&& timeout is Some <==> 0 < x.bits <= 0x7ff0_0000_0000_0000
                    &&& timeout is Some ==> timeout->0 == binary64::saturated(
                        x,
                        0xffff_ffff_ffff_ffff,
                    )
                },
                _ => timeout is None,
            }
        }),
{
}

/// The credentials of a request are the JSON text of `auth`, where that is there and
/// not null; and its tags are those of `tags`.
pub proof fn law_credentials_and_tags_are_kept(
    method: Seq<char>,
    parsed: Option<Seq<char>>,
    url: Seq<char>,
    headers_json: Seq<char>,
    body: Seq<char>,
    response_type: Seq<char>,
    extras: json::JsonView,
    i: int,
)
    ensures
        ({
            let call = read_call(method, parsed, url, headers_json, body, response_type, extras);
            &&& match json::member(extras, "auth"@) {
                Some(a) => if a.node is Null {
                    call.request.auth is None
                } else {
                    call.request.auth == Some(a.text)
                },
                None => call.request.auth is None,
            }
            &&& match json::member(extras, "tags"@) {
                Some(json::JsonView { node: json::NodeView::Object(entries), .. }) => {
                    0 <= i < entries.len() && (forall|j: int|
                        i < j < entries.len() ==> (#[trigger] entries[j]).0 != entries[i].0)
                        ==> call.tags.contains_key(entries[i].0) && call.tags[entries[i].0]
                        == http_samples::tag_text(entries[i].1)
                },
                _ => forall|k: Seq<char>| !#[trigger] call.tags.contains_key(k),
            }
        }),
{
    if let Some(json::JsonView { node: json::NodeView::Object(entries), .. }) = json::member(
        extras,
        "tags"@,
    ) {
        if 0 <= i < entries.len() && forall|j: int|
            i < j < entries.len() ==> (#[trigger] entries[j]).0 != entries[i].0 {
            http_samples::law_last_entry_gives_the_tag(Map::empty(), entries, i);
        }
    }
}

/// A body without base64 and compression is sent as its text, with the headers that
/// the script declares and no others. An empty body is none.
pub proof fn law_plain_body_is_sent(
    method: Seq<char>,
    parsed: Option<Seq<char>>,
    url: Seq<char>,
    headers_json: Seq<char>,
    body: Seq<char>,
    response_type: Seq<char>,
    extras: json::JsonView,
)
    requires
        !(json::member(extras, "bodyB64"@) matches Some(b) && b.node == json::NodeView::Bool(true)),
        !(json::member(extras, "compression"@) matches Some(c) && c.node is Text
            && c.node->Text_0.len() > 0),
    ensures
        ({
            let request = read_call(
                method,
                parsed,
                url,
                headers_json,
                body,
                response_type,
                extras,
            ).request;
            &&& body.len() == 0 ==> request.body is None
            &&& body.len() > 0 ==> request.body == Some(BodyView::Raw(body))
            &&& request.headers == headers::declared_headers(
                headers_json,
                json::json_document(headers_json),
            )
        }),
{
    assert(extras_of(extras).compression.len() == 0);
}

/// A body in base64 is sent as the bytes that it stands for, and not at all where
/// it stands for none. It is not compressed.
pub proof fn law_base64_body_is_sent(
    method: Seq<char>,
    parsed: Option<Seq<char>>,
    url: Seq<char>,
    headers_json: Seq<char>,
    body: Seq<char>,
    response_type: Seq<char>,
    extras: json::JsonView,
)
    requires
        json::member(extras, "bodyB64"@) matches Some(b) && b.node == json::NodeView::Bool(true),
        body.len() > 0,
    ensures
        ({
            let request = read_call(
                method,
                parsed,
                url,
                headers_json,
                body,
                response_type,
                extras,
            ).request;
            &&& encoding::base64_bytes(body) is None ==> request.body is None
            &&& encoding::base64_bytes(body) is Some ==> request.body == Some(
                BodyView::Binary(encoding::base64_bytes(body)->0),
            )
            &&& request.headers == headers::declared_headers(
                headers_json,
                json::json_document(headers_json),
            )
        }),
{
}

/// A text body is compressed as the script asks: with gzip where the kind says so,
/// else with deflate. One header more tells how, behind the declared ones. Where the
/// kind says neither, the body is sent as it is.
pub proof fn law_compressed_body_is_sent(
    method: Seq<char>,
    parsed: Option<Seq<char>>,
    url: Seq<char>,
    headers_json: Seq<char>,
    body: Seq<char>,
    response_type: Seq<char>,
    extras: json::JsonView,
    kind: Seq<char>,
)
    requires
        !(json::member(extras, "bodyB64"@) matches Some(b) && b.node == json::NodeView::Bool(true)),
        json::member(extras, "compression"@) matches Some(c) && c.node == json::NodeView::Text(
            kind,
        ),
        body.len() > 0,
    ensures
        ({
            let request = read_call(
                method,
                parsed,
                url,
                headers_json,
                body,
                response_type,
                extras,
            ).request;
            let declared = headers::declared_headers(
                headers_json,
                json::json_document(headers_json),
            );
            let gzip = text::contains(kind, "gzip"@);
            let deflate = !gzip && text::contains(kind, "deflate"@);
            &&& gzip ==> request.body == Some(
                BodyView::Binary(encoding::gzip_bytes(encode_utf8(body))),
            ) && request.headers == declared.push(("Content-Encoding"@, "gzip"@))
            &&& deflate ==> request.body == Some(
                BodyView::Binary(encoding::deflate_bytes(encode_utf8(body))),
            ) && request.headers == declared.push(("Content-Encoding"@, "deflate"@))
            &&& !gzip && !deflate ==> request.body == Some(BodyView::Raw(body)) && request.headers
                == declared
        }),
{
    reveal_strlit("gzip");
    reveal_strlit("deflate");
    lemma_utf8_is_not_empty(body);
    if kind.len() == 0 {
        assert forall|i: int| !text::occurs_at(kind, "gzip"@, i) by {}
        assert forall|i: int| !text::occurs_at(kind, "deflate"@, i) by {}
    }
}

proof fn lemma_utf8_is_not_empty(s: Seq<char>)
    requires
        s.len() > 0,
    ensures
        encode_utf8(s).len() > 0,
{
    encode_utf8_decode_utf8(s);
    if encode_utf8(s).len() == 0 {
        let none = Seq::<char>::empty();
        encode_utf8_decode_utf8(none);
        assert(encode_utf8(none) =~= encode_utf8(s)) by {
            assert(encode_utf8(none).len() == 0);
        }
    }
}

/// The headers that a script sees are exactly those that the host got, the same
/// keys with the same values, where the body is below the heap.
pub proof fn law_headers_are_shown(r: HttpResponse, response_type: Seq<char>, key: Seq<char>)
    requires
        r.body@.len() < 10_485_760,
    ensures
        ({
            let seen = arrived(r, response_type);
            &&& seen.headers.contains_key(key) == r.headers@.contains_key(key)
            &&& r.headers@.contains_key(key) ==> seen.headers[key] == r.headers@[key]@
        }),
{
}

/// What a script sees of a response is what the host got: its status, its text, its
/// time and its timings, no error, and its cookies by their names.
pub proof fn law_response_is_shown(r: HttpResponse, response_type: Seq<char>, name: Seq<char>)
    requires
        r.body@.len() < 10_485_760,
    ensures
        ({
            let seen = arrived(r, response_type);
            &&& seen.status == r.status_code
            &&& seen.status_text == r.status_text@
            &&& seen.response_time == r.response_time
            &&& seen.timings == r.timings
            &&& seen.error.len() == 0
            &&& seen.error_code == 0
            &&& seen.cookies is Some
            &&& seen.cookies->0.contains_key(name) <==> exists|i: int|
                0 <= i < r.cookies@.len() && (#[trigger] r.cookies@[i]).name@ == name
        }),
{
    let views = cookie_views(r.cookies@);
    if has_cookie(views, name) {
        let i = choose|i: int| 0 <= i < views.len() && (#[trigger] views[i]).name == name;
        assert(r.cookies@[i].name@ == name);
    }
    if exists|i: int| 0 <= i < r.cookies@.len() && (#[trigger] r.cookies@[i]).name@ == name {
        let i = choose|i: int|
            0 <= i < r.cookies@.len() && (#[trigger] r.cookies@[i]).name@ == name;
        assert(views[i].name == name);
    }
}

/// A script that asks for bytes sees the bytes of the body, and any other script
/// sees its text, where the body is below the heap.
pub proof fn law_body_is_shown(r: HttpResponse, response_type: Seq<char>)
    requires
        r.body@.len() < 10_485_760,
    ensures
        text::lower(response_type) == "binary"@ ==> arrived(r, response_type).body
            == ShownView::Bytes(r.body@),
        text::lower(response_type) != "binary"@ ==> (arrived(r, response_type).body
            matches ShownView::Text(s) && (valid_utf8(r.body@) ==> s == decode_utf8(r.body@))),
{
}

/// What stands in the stead of a response that is too large: status 0, why, the code
/// for any other error, no headers, no cookies, no timings, and an empty body of
/// the kind that the script asked for.
pub proof fn law_too_large_a_response(r: HttpResponse, response_type: Seq<char>)
    requires
        r.body@.len() >= 10_485_760,
    ensures
        ({
            let seen = arrived(r, response_type);
            &&& seen.status == 0
            &&& seen.status_text == "response body exceeds the per-VU JS heap cap"@
            &&& seen.error == seen.status_text
            &&& forall|k: Seq<char>| !#[trigger] seen.headers.contains_key(k)
            &&& seen.cookies is None
            &&& seen.timings is None
            &&& seen.response_time == 0
            &&& text::lower(response_type) == "binary"@ ==> (seen.body matches ShownView::Bytes(b)
                && b.len() == 0)
            &&& text::lower(response_type) != "binary"@ ==> (seen.body matches ShownView::Text(t)
                && t.len() == 0)
        }),
{
}

/// What a script sees of a request that failed: status 0, the error, its code, and
/// nothing of a response.
pub proof fn law_failure_is_shown(call: CallView, attempt: Attempt)
    requires
        call.fault is None,
        attempt.outcome is Error,
    ensures
        ({
            let seen = single_response(call, attempt);
            let error = attempt.outcome->Error_0@;
            &&& seen.status == 0
            &&& seen.status_text == "HTTP error: "@ + error
            &&& seen.error == error
            &&& seen.error_code == error_code_of(error)
            &&& forall|k: Seq<char>| !#[trigger] seen.headers.contains_key(k)
            &&& seen.response_time == 0
            &&& seen.timings is None
            &&& seen.cookies matches Some(m) && forall|k: Seq<char>| !#[trigger] m.contains_key(k)
            &&& text::lower(call.response_type) == "binary"@ ==> (seen.body
                matches ShownView::Bytes(b) && b.len() == 0)
            &&& text::lower(call.response_type) != "binary"@ ==> (seen.body
                matches ShownView::Text(t) && t.len() == 0)
            &&& batch_response(call, attempt) == seen
        }),
{
}

/// A response is shown in the same way alone and in a batch. A refused method is an
/// error in both, which only the batch calls an HTTP error.
pub proof fn law_batches_show_what_single_requests_show(call: CallView, attempt: Attempt)
    ensures
        call.fault is None && attempt.outcome is Response ==> {
            &&& single_response(call, attempt) == arrived(
                attempt.outcome->Response_0,
                call.response_type,
            )
            &&& batch_response(call, attempt) == single_response(call, attempt)
        },
        call.fault matches Some(fault) ==> {
            &&& single_response(call, attempt).status == 0
            &&& single_response(call, attempt).status_text == fault
            &&& single_response(call, attempt).error == fault
            &&& single_response(call, attempt).error_code == 1000
            &&& batch_response(call, attempt).status == 0
            &&& batch_response(call, attempt).status_text == "HTTP error: "@ + fault
            &&& batch_response(call, attempt).error == fault
            &&& batch_response(call, attempt).error_code == error_code_of(fault)
        },
{
}

/// The code of an error follows from the words in its message, in any case: name
/// resolution comes before a timeout, that before TLS, that before HTTP/2, that
/// before the connection, and that before the address.
pub proof fn law_error_codes(msg: Seq<char>)
    ensures
        ({
            let says = |word: Seq<char>| text::contains(text::lower(msg), word);
            let dns = says("dns"@) || says("nodename"@) || says("resolve"@);
            let late = says("timed out"@) || says("timeout"@) || says("deadline"@);
            let tls = says("tls"@) || says("certificate"@) || says("handshake"@);
            let h2 = says("http2"@) || says("h2"@);
            let line = says("connect"@) || says("refused"@) || says("reset"@);
            let address = says("url"@) || says("uri"@);
            &&& dns ==> error_code_of(msg) == 1100
            &&& !dns && late ==> error_code_of(msg) == 1050
            &&& !dns && !late && tls ==> error_code_of(msg) == 1300
            &&& !dns && !late && !tls && h2 ==> error_code_of(msg) == 1600
            &&& !dns && !late && !tls && !h2 && line ==> error_code_of(msg) == 1200
            &&& !dns && !late && !tls && !h2 && !line && address ==> error_code_of(msg) == 1010
            &&& !dns && !late && !tls && !h2 && !line && !address ==> error_code_of(msg) == 1000
        }),
{
}

/// The cookies under a name are those with the name, in the order in which they
/// came.
pub proof fn law_cookies_keep_their_order(a: Seq<CookieView>, b: Seq<CookieView>, name: Seq<char>)
    ensures
        cookies_named(a + b, name) == cookies_named(a, name) + cookies_named(b, name),
        forall|i: int|
            0 <= i < cookies_named(a, name).len() ==> (#[trigger] cookies_named(a, name)[i]).name
                == name,
        a.len() == 1 && a[0].name == name ==> cookies_named(a, name) == a,
        a.len() == 1 && a[0].name != name ==> cookies_named(a, name).len() == 0,
    decreases a.len() + b.len(),
{
    reveal_with_fuel(cookies_named, 2);
    if a.len() == 1 {
        assert(a.drop_last() =~= Seq::empty());
        if a[0].name == name {
            assert(cookies_named(a, name) =~= a);
        }
    }
    if a.len() > 0 {
        law_cookies_keep_their_order(a.drop_last(), Seq::empty(), name);
    }
    if b.len() == 0 {
        assert(a + b =~= a);
        assert(cookies_named(a, name) + cookies_named(b, name) =~= cookies_named(a, name));
    } else {
        law_cookies_keep_their_order(a, b.drop_last(), name);
        assert((a + b).drop_last() =~= a + b.drop_last());
        assert(cookies_named(a + b, name) =~= cookies_named(a, name) + cookies_named(b, name));
    }
}

/// Each name of a cookie is listed once, and cookies with names of their own are
/// listed in the order in which they came.
pub proof fn law_cookie_names_are_listed(cookies: Seq<CookieView>, i: int, j: int)
    ensures
        forall|n: Seq<char>| #[trigger]
            cookie_names(cookies).contains(n) <==> has_cookie(cookies, n),
        0 <= i < j < cookie_names(cookies).len() ==> cookie_names(cookies)[i] != cookie_names(
            cookies,
        )[j],
        (forall|p: int, q: int|
            0 <= p < q < cookies.len() ==> (#[trigger] cookies[p]).name != (
            #[trigger] cookies[q]).name) ==> cookie_names(cookies).len() == cookies.len() && (0
            <= i < cookies.len() ==> cookie_names(cookies)[i] == cookies[i].name),
    decreases cookies.len(),
{
    let names = cookie_names(cookies);
    if cookies.len() == 0 {
        assert forall|n: Seq<char>| #[trigger] names.contains(n) <==> has_cookie(cookies, n) by {}
    } else {
        let front = cookies.drop_last();
        let before = cookie_names(front);
        let last = cookies.last().name;
        law_cookie_names_are_listed(front, i, j);
        assert(before.contains(last) <==> has_cookie(front, last));
        if !has_cookie(front, last) && 0 <= i < before.len() && before[i] == last {
            assert(before.contains(last));
        }
        assert forall|n: Seq<char>| #[trigger] names.contains(n) <==> has_cookie(cookies, n) by {
            assert(before.contains(n) <==> has_cookie(front, n));
            if has_cookie(front, n) {
                let k = choose|k: int| 0 <= k < front.len() && (#[trigger] front[k]).name == n;
                assert(cookies[k].name == n);
                let m = choose|m: int| 0 <= m < before.len() && before[m] == n;
                assert(names[m] == n);
            }
            if n == last {
                assert(cookies[cookies.len() - 1].name == n);
                if !has_cookie(front, last) {
                    assert(names[before.len() as int] == n);
                }
            }
            if has_cookie(cookies, n) && n != last {
                let k = choose|k: int| 0 <= k < cookies.len() && (#[trigger] cookies[k]).name == n;
                assert(front[k].name == n);
            }
            if names.contains(n) && n != last {
                let m = choose|m: int| 0 <= m < names.len() && names[m] == n;
                assert(before[m] == n);
            }
        }
        if forall|p: int, q: int|
            0 <= p < q < cookies.len() ==> (#[trigger] cookies[p]).name != (
            #[trigger] cookies[q]).name {
            assert forall|p: int, q: int| 0 <= p < q < front.len() implies (
            #[trigger] front[p]).name != (#[trigger] front[q]).name by {
                assert(front[p] == cookies[p] && front[q] == cookies[q]);
            }
            if has_cookie(front, last) {
                let k = choose|k: int| 0 <= k < front.len() && (#[trigger] front[k]).name == last;
                assert(cookies[k].name != cookies[cookies.len() - 1].name);
            }
        }
    }
}

/// The samples of a response: first those of its hops, in order, and then those of
/// the response itself, with its own status and what was sent. They carry the tags
/// of the script, the scenario and the group.
pub proof fn law_attempt_records_its_response(
    call: CallView,
    attempt: Attempt,
    at: SettingView,
)
    requires
        call.fault is None,
        attempt.outcome is Response,
    ensures
        ({
            let r = attempt.outcome->Response_0;
            let s = attempt_samples(call, attempt, at);
            let hops = http_samples::hop_samples(
                http_samples::hop_views(r.redirects@),
                call.request.method,
                at.scenario,
                Some(call.tags),
                at.group,
                at.now,
            );
            let own = s.skip(hops.len() as int);
            let tags = http_samples::http_tag_map(
                call.request.url,
                call.request.method,
                text::decimal(r.status_code as nat),
                at.scenario,
                Some(call.tags),
                at.group,
            );
            let once = |metric: Seq<char>, value: samples::SampleValue, kind: samples::SampleType|
                samples::recorded_once(own, metric, value, tags, at.now, kind);
            &&& s.take(hops.len() as int) == hops
            &&& once(
                "http_req_duration"@,
                samples::SampleValue::Nanos(r.response_time),
                samples::SampleType::Trend,
            )
            &&& once(
                "http_reqs"@,
                samples::SampleValue::Count(1),
                samples::SampleType::Counter,
            )
            &&& once(
                "http_req_failed"@,
                samples::SampleValue::Flag(r.status_code < 200 || r.status_code > 399),
                samples::SampleType::Rate,
            )
            &&& once(
                "data_received"@,
                samples::SampleValue::Count(r.size),
                samples::SampleType::Counter,
            )
            &&& once(
                "data_sent"@,
                samples::SampleValue::Count(attempt.sent),
                samples::SampleType::Counter,
            )
            &&& r.timings is None ==> own.len() == 5
            &&& r.timings matches Some(t) ==> {
                &&& own.len() == 12
                &&& once(
                    "http_req_receiving"@,
                    samples::SampleValue::Nanos(t.receiving),
                    samples::SampleType::Trend,
                )
                &&& once(
                    "http_req_waiting"@,
                    samples::SampleValue::Nanos(t.waiting),
                    samples::SampleType::Trend,
                )
                &&& once(
                    "http_req_sending"@,
                    samples::SampleValue::Nanos(t.sending),
                    samples::SampleType::Trend,
                )
            }
            &&& http_samples::requests_counted(hops) == r.redirects@.len()
        }),
{
    let r = attempt.outcome->Response_0;
    let s = attempt_samples(call, attempt, at);
    let views = http_samples::hop_views(r.redirects@);
    let hops = http_samples::hop_samples(
        views,
        call.request.method,
        at.scenario,
        Some(call.tags),
        at.group,
        at.now,
    );
    let tags = http_samples::http_tag_map(
        call.request.url,
        call.request.method,
        text::decimal(r.status_code as nat),
        at.scenario,
        Some(call.tags),
        at.group,
    );
    let own = http_samples::response_samples(
        r.status_code,
        r.response_time,
        r.size,
        attempt.sent,
        r.timings,
        tags,
        at.now,
    );
    assert(s == hops + own);
    assert(s.skip(hops.len() as int) =~= own);
    assert(s.take(hops.len() as int) =~= hops);
    http_samples::law_response_is_recorded(
        r.status_code,
        r.response_time,
        r.size,
        attempt.sent,
        r.timings,
        tags,
        at.now,
    );
    if let Some(t) = r.timings {
        http_samples::law_each_phase_has_its_time(
            r.status_code,
            r.response_time,
            r.size,
            attempt.sent,
            t,
            tags,
            at.now,
        );
    }
    http_samples::law_every_hop_is_counted(
        views,
        call.request.method,
        at.scenario,
        Some(call.tags),
        at.group,
        at.now,
    );
}

/// The samples of an attempt without a response: the time until it failed and what
/// was sent, with the status 0.
pub proof fn law_attempt_records_its_failure(call: CallView, attempt: Attempt, at: SettingView)
    requires
        call.fault is Some || attempt.outcome is Error,
    ensures
        ({
            let s = attempt_samples(call, attempt, at);
            let tags = http_samples::http_tag_map(
                call.request.url,
                call.request.method,
                "0"@,
                at.scenario,
                Some(call.tags),
                at.group,
            );
            let once = |metric: Seq<char>, value: samples::SampleValue, kind: samples::SampleType|
                samples::recorded_once(s, metric, value, tags, at.now, kind);
            &&& s.len() == 4
            &&& once(
                "http_req_duration"@,
                samples::SampleValue::Nanos(attempt.elapsed),
                samples::SampleType::Trend,
            )
            &&& once(
                "http_reqs"@,
                samples::SampleValue::Count(1),
                samples::SampleType::Counter,
            )
            &&& once(
                "http_req_failed"@,
                samples::SampleValue::Flag(true),
                samples::SampleType::Rate,
            )
            &&& once(
                "data_sent"@,
                samples::SampleValue::Count(attempt.sent),
                samples::SampleType::Counter,
            )
        }),
{
    http_samples::law_failure_is_recorded(
        attempt.elapsed,
        attempt.sent,
        http_samples::http_tag_map(
            call.request.url,
            call.request.method,
            "0"@,
            at.scenario,
            Some(call.tags),
            at.group,
        ),
        at.now,
    );
}

/// The requests of a batch: one for each item of the list, in order. What an item
/// leaves open is GET, an empty address, no headers, an empty body, text, and no
/// further parameters.
pub proof fn law_batch_entries(doc: json::JsonView, items: Seq<json::JsonView>, i: int)
    requires
        doc.node == json::NodeView::Array(items),
        0 <= i < items.len(),
    ensures
        ({
            let e = batch_of(Some(doc))[i];
            let field = |key: Seq<char>| json::text_member(items[i], key);
            &&& batch_of(Some(doc)).len() == items.len()
            &&& field("method"@) is Some ==> e.method == field("method"@)->0
            &&& field("method"@) is None ==> e.method == "GET"@
            &&& field("url"@) is Some ==> e.url == field("url"@)->0
            &&& field("url"@) is None ==> e.url.len() == 0
            &&& field("headers_json"@) is Some ==> e.headers_json == field("headers_json"@)->0
            &&& field("headers_json"@) is None ==> e.headers_json == "{}"@
            &&& field("body"@) is Some ==> e.body == field("body"@)->0
            &&& field("body"@) is None ==> e.body.len() == 0
            &&& field("response_type"@) is Some ==> e.response_type == field("response_type"@)->0
            &&& field("response_type"@) is None ==> e.response_type == "text"@
            &&& field("key"@) is Some ==> e.key == field("key"@)->0
            &&& json::member(items[i], "key"@) is None ==> e.key.len() == 0
            &&& json::member(items[i], "key"@) is Some && field("key"@) is None ==> e.key
                == json::member(items[i], "key"@)->0.text
            &&& field("extras"@) is Some && json::json_document(field("extras"@)->0) is Some
                ==> e.extras == json::json_document(field("extras"@)->0)->0
            &&& field("extras"@) is None || json::json_document(field("extras"@)->0) is None
                ==> e.extras.node is Null
        }),
{
}

/// What is no list asks for no requests.
pub proof fn law_only_lists_are_batches(doc: Option<json::JsonView>)
    requires
        doc is None || !(doc->0.node is Array),
    ensures
        batch_of(doc).len() == 0,
{
}

/// A batch records what its requests record, each in its turn: behind what those
/// before it record stands all that it records itself.
pub proof fn law_batches_record_each_request(
    calls: Seq<Call>,
    attempts: Seq<Attempt>,
    at: SettingView,
    i: nat,
    n: nat,
)
    requires
        i < n <= calls.len(),
        n <= attempts.len(),
    ensures
        ({
            let before = batch_samples(calls, attempts, at, i).len();
            let own = attempt_samples(calls[i as int]@, attempts[i as int], at);
            let all = batch_samples(calls, attempts, at, n);
            &&& before + own.len() <= all.len()
            &&& all.subrange(before as int, before as int + own.len()) == own
            &&& i + 1 == n ==> before + own.len() == all.len()
            &&& i == 0 ==> before == 0
        }),
    decreases n,
{
    let before = batch_samples(calls, attempts, at, i).len() as int;
    let own = attempt_samples(calls[i as int]@, attempts[i as int], at);
    let all = batch_samples(calls, attempts, at, n);
    if i + 1 < n {
        let front = batch_samples(calls, attempts, at, (n - 1) as nat);
        law_batches_record_each_request(calls, attempts, at, i, (n - 1) as nat);
        assert(all.subrange(before, before + own.len()) =~= front.subrange(
            before,
            before + own.len(),
        ));
    } else {
        assert(all.subrange(before, before + own.len()) =~= own);
    }
}

/// The cookies of a response are shown under the names they were grouped by, each as
/// it is.
pub proof fn law_cookies_are_shown_as_they_are(m: Map<Seq<char>, Vec<Cookie>>, name: Seq<char>, i: int)
    ensures
        cookie_map(m).contains_key(name) <==> m.contains_key(name),
        m.contains_key(name) && 0 <= i < m[name]@.len() ==> cookie_map(m)[name].len()
            == m[name]@.len() && cookie_map(m)[name][i] == m[name]@[i]@,
{
}

} // verus!
