//! The samples that an HTTP request leaves.
//!
//! Every request, every hop of a redirect and every failed attempt counts. A
//! response is a success where its status is from 200 up to 399. What the script
//! passes as tags wins over the tags that every request has.

use crate::json;
use crate::json::Json;
use crate::samples;
use crate::samples::{Sample, SampleType, SampleValue};
use crate::string_map;
use crate::string_map::StringMap;
use crate::text;
use vstd::prelude::*;
use vstd::string::*;

verus! {

/// How long each phase of a request took, in nanoseconds.
#[derive(Debug, Clone, Copy, PartialEq, Eq, Structural)]
pub struct Timings {
    pub blocked: u128,
    pub dns: u128,
    pub connecting: u128,
    pub tls_handshaking: u128,
    pub sending: u128,
    pub waiting: u128,
    pub receiving: u128,
    /// All phases together.
    pub total: u128,
}

/// A response that redirected the request.
#[derive(Debug)]
pub struct RedirectHop {
    pub url: String,
    pub status_code: u16,
    pub response_time: u128,
    pub size: u64,
    pub timings: Option<Timings>,
}

pub struct RedirectView {
    pub url: Seq<char>,
    pub status_code: u16,
    pub response_time: u128,
    pub size: u64,
    pub timings: Option<Timings>,
}

impl View for RedirectHop {
    type V = RedirectView;

    open spec fn view(&self) -> RedirectView {
        RedirectView {
            url: self.url@,
            status_code: self.status_code,
            response_time: self.response_time,
            size: self.size,
            timings: self.timings,
        }
    }
}

// ── tags ──

/// The tags of a request. The request has its address as its name, and `http` as
/// its group where it runs outside of any. Tags of the script come last and win.
pub open spec fn http_tag_map(
    url: Seq<char>,
    method: Seq<char>,
    status: Seq<char>,
    scenario: Seq<char>,
    extra: Option<Map<Seq<char>, Seq<char>>>,
    group: Option<Seq<char>>,
) -> Map<Seq<char>, Seq<char>> {
    let base = Map::empty().insert("url"@, url).insert("method"@, method).insert(
        "status"@,
        status,
    ).insert("name"@, url).insert(
        "group"@,
        match group {
            Some(g) => g,
            None => "http"@,
        },
    );
    let stamped = if scenario.len() > 0 {
        base.insert("scenario"@, scenario)
    } else {
        base
    };
    match extra {
        Some(m) => stamped.union_prefer_right(m),
        None => stamped,
    }
}

/// Optional tags by their view.
pub open spec fn opt_tags(extra: Option<&StringMap<String>>) -> Option<Map<Seq<char>, Seq<char>>> {
    match extra {
        Some(m) => Some(string_map::texts(m@)),
        None => None,
    }
}

/// The tags of a request with the given address and method.
pub fn http_tags_for(
    url: &str,
    method: &str,
    status: &str,
    scenario: &str,
    extra: Option<&StringMap<String>>,
    group: Option<&str>,
) -> (r: StringMap<String>)
    ensures
        string_map::texts(r@) == http_tag_map(
            url@,
            method@,
            status@,
            scenario@,
            opt_tags(extra),
            json::opt_view(group),
        ),
{
    let mut tags: StringMap<String> = StringMap::new();
    assert(string_map::texts(tags@) =~= Map::empty());
    tags.set("url", url);
    tags.set("method", method);
    tags.set("status", status);
    tags.set("name", url);
    match group {
        Some(g) => tags.set("group", g),
        None => tags.set("group", "http"),
    }
    if !text::empty(scenario) {
        tags.set("scenario", scenario);
    }
    if let Some(m) = extra {
        proof {
            string_map::lemma_texts_union(tags@, m@);
        }
        tags.extend(m);
    }
    tags
}

// ── tag values ──

/// A JSON value as a tag: a string as it is, nothing for null, and the JSON text
/// of any other value.
pub open spec fn tag_text(value: json::JsonView) -> Seq<char> {
    match value.node {
        json::NodeView::Text(s) => s,
        json::NodeView::Null => Seq::empty(),
        _ => value.text,
    }
}

/// The tags that a list of entries adds to `tags`. A later entry wins.
pub open spec fn with_entries(
    tags: Map<Seq<char>, Seq<char>>,
    entries: Seq<(Seq<char>, json::JsonView)>,
) -> Map<Seq<char>, Seq<char>>
    decreases entries.len(),
{
    if entries.len() == 0 {
        tags
    } else {
        with_entries(tags, entries.drop_last()).insert(
            entries.last().0,
            tag_text(entries.last().1),
        )
    }
}

/// The tags that a document adds. Only an object adds any.
pub open spec fn with_document(
    tags: Map<Seq<char>, Seq<char>>,
    doc: Option<json::JsonView>,
) -> Map<Seq<char>, Seq<char>> {
    match json::as_object(doc) {
        Some(entries) => with_entries(tags, entries),
        None => tags,
    }
}

/// The tag form of a JSON value.
pub fn coerce_tag_value(value: &Json) -> (r: String)
    ensures
        r@ == tag_text(value@),
{
    if let Some(s) = value.as_str() {
        s.to_owned()
    } else if value.is_null() {
        String::new()
    } else {
        value.text.clone()
    }
}

/// Adds the entries of an object to the tags.
pub fn add_entries(entries: &Vec<(String, Json)>, tags: &mut StringMap<String>)
    ensures
        string_map::texts(final(tags)@) == with_entries(
            string_map::texts(old(tags)@),
            json::entries_view(entries@),
        ),
{
    let ghost all = json::entries_view(entries@);
    let ghost start = string_map::texts(tags@);
    let mut i: usize = 0;
    while i < entries.len()
        invariant
            i <= entries@.len(),
            all == json::entries_view(entries@),
            string_map::texts(tags@) == with_entries(start, all.take(i as int)),
        decreases entries@.len() - i,
    {
        let value = coerce_tag_value(&entries[i].1);
        assert(all.take(i + 1).drop_last() =~= all.take(i as int));
        tags.set(entries[i].0.as_str(), value.as_str());
        i += 1;
    }
    assert(all.take(entries@.len() as int) =~= all);
}

/// Adds the tags that a document declares. A document that is no object adds none.
pub fn add_document(doc: &Json, tags: &mut StringMap<String>)
    ensures
        string_map::texts(final(tags)@) == with_document(
            string_map::texts(old(tags)@),
            Some(doc@),
        ),
{
    if let Some(entries) = doc.as_object() {
        add_entries(entries, tags);
    }
}

/// Adds the tags of a JSON text. Values of every kind become text, and a text
/// that is no JSON object adds none.
pub fn stringify_tag_map_into(j: &str, tags: &mut StringMap<String>)
    ensures
        string_map::texts(final(tags)@) == with_document(
            string_map::texts(old(tags)@),
            json::json_document(j@),
        ),
{
    if let Some(doc) = Json::parse(j) {
        add_document(&doc, tags);
    }
}

// ── samples ──

/// Whether a status is a failure.
pub open spec fn is_failure(status: u16) -> bool {
    !(200 <= status < 400)
}

/// One sample for each phase.
pub open spec fn phase_samples(
    timings: Timings,
    tags: Map<Seq<char>, Seq<char>>,
    now: u64,
) -> Seq<samples::SampleView> {
    let trend = |metric: Seq<char>, nanos: u128|
        samples::sample(metric, SampleValue::Nanos(nanos), tags, now, SampleType::Trend);
    seq![
        trend("http_req_blocked"@, timings.blocked),
        trend("http_req_dns"@, timings.dns),
        trend("http_req_connecting"@, timings.connecting),
        trend("http_req_tls_handshaking"@, timings.tls_handshaking),
        trend("http_req_sending"@, timings.sending),
        trend("http_req_waiting"@, timings.waiting),
        trend("http_req_receiving"@, timings.receiving),
    ]
}

/// The samples of a response.
pub open spec fn response_samples(
    status: u16,
    duration: u128,
    size: u64,
    sent: u64,
    timings: Option<Timings>,
    tags: Map<Seq<char>, Seq<char>>,
    now: u64,
) -> Seq<samples::SampleView> {
    seq![
        samples::sample(
            "http_req_duration"@,
            SampleValue::Nanos(duration),
            tags,
            now,
            SampleType::Trend,
        ),
    ] + (match timings {
        Some(t) => phase_samples(t, tags, now),
        None => Seq::empty(),
    }) + seq![
        samples::sample("http_reqs"@, SampleValue::Count(1), tags, now, SampleType::Counter),
        samples::sample(
            "http_req_failed"@,
            SampleValue::Flag(is_failure(status)),
            tags,
            now,
            SampleType::Rate,
        ),
        samples::sample("data_received"@, SampleValue::Count(size), tags, now, SampleType::Counter),
        samples::sample("data_sent"@, SampleValue::Count(sent), tags, now, SampleType::Counter),
    ]
}

/// The samples of a request that got no response: it took the time until it
/// failed, and what was sent was sent.
pub open spec fn failure_samples(
    elapsed: u128,
    sent: u64,
    tags: Map<Seq<char>, Seq<char>>,
    now: u64,
) -> Seq<samples::SampleView> {
    seq![
        samples::sample(
            "http_req_duration"@,
            SampleValue::Nanos(elapsed),
            tags,
            now,
            SampleType::Trend,
        ),
        samples::sample("http_reqs"@, SampleValue::Count(1), tags, now, SampleType::Counter),
        samples::sample("http_req_failed"@, SampleValue::Flag(true), tags, now, SampleType::Rate),
        samples::sample("data_sent"@, SampleValue::Count(sent), tags, now, SampleType::Counter),
    ]
}

/// The samples of the hops of a redirected request. No hop sends a body.
pub open spec fn hop_samples(
    hops: Seq<RedirectView>,
    method: Seq<char>,
    scenario: Seq<char>,
    extra: Option<Map<Seq<char>, Seq<char>>>,
    group: Option<Seq<char>>,
    now: u64,
) -> Seq<samples::SampleView>
    decreases hops.len(),
{
    if hops.len() == 0 {
        Seq::empty()
    } else {
        let hop = hops.last();
        hop_samples(hops.drop_last(), method, scenario, extra, group, now) + response_samples(
            hop.status_code,
            hop.response_time,
            hop.size,
            0,
            hop.timings,
            http_tag_map(
                hop.url,
                method,
                text::decimal(hop.status_code as nat),
                scenario,
                extra,
                group,
            ),
            now,
        )
    }
}

fn push_phases(sink: &mut Vec<Sample>, t: &Timings, tags: &StringMap<String>, now: u64)
    ensures
        samples::views(final(sink)@) == samples::views(old(sink)@) + phase_samples(
            *t,
            string_map::texts(tags@),
            now,
        ),
{
    samples::push(
        sink,
        "http_req_blocked",
        SampleValue::Nanos(t.blocked),
        tags,
        now,
        SampleType::Trend,
    );
    samples::push(sink, "http_req_dns", SampleValue::Nanos(t.dns), tags, now, SampleType::Trend);
    samples::push(
        sink,
        "http_req_connecting",
        SampleValue::Nanos(t.connecting),
        tags,
        now,
        SampleType::Trend,
    );
    samples::push(
        sink,
        "http_req_tls_handshaking",
        SampleValue::Nanos(t.tls_handshaking),
        tags,
        now,
        SampleType::Trend,
    );
    samples::push(
        sink,
        "http_req_sending",
        SampleValue::Nanos(t.sending),
        tags,
        now,
        SampleType::Trend,
    );
    samples::push(
        sink,
        "http_req_waiting",
        SampleValue::Nanos(t.waiting),
        tags,
        now,
        SampleType::Trend,
    );
    samples::push(
        sink,
        "http_req_receiving",
        SampleValue::Nanos(t.receiving),
        tags,
        now,
        SampleType::Trend,
    );
    assert(samples::views(sink@) =~= samples::views(old(sink)@) + phase_samples(
        *t,
        string_map::texts(tags@),
        now,
    ));
}

/// Adds the samples of a response to a request with the given address and method.
pub fn push_http_samples_for(
    sink: &mut Vec<Sample>,
    url: &str,
    method: &str,
    status_code: u16,
    duration: u128,
    size: u64,
    sent: u64,
    timings: Option<Timings>,
    scenario: &str,
    extra_tags: Option<&StringMap<String>>,
    group: Option<&str>,
    now: u64,
)
    ensures
        samples::views(final(sink)@) == samples::views(old(sink)@) + response_samples(
            status_code,
            duration,
            size,
            sent,
            timings,
            http_tag_map(
                url@,
                method@,
                text::decimal(status_code as nat),
                scenario@,
                opt_tags(extra_tags),
                json::opt_view(group),
            ),
            now,
        ),
{
    let status = text::decimal_text(status_code as u64);
    let tags = http_tags_for(url, method, status.as_str(), scenario, extra_tags, group);
    let failed = !(200 <= status_code && status_code < 400);
    samples::push(
        sink,
        "http_req_duration",
        SampleValue::Nanos(duration),
        &tags,
        now,
        SampleType::Trend,
    );
    if let Some(t) = &timings {
        push_phases(sink, t, &tags, now);
    }
    samples::push(sink, "http_reqs", SampleValue::Count(1), &tags, now, SampleType::Counter);
    samples::push(sink, "http_req_failed", SampleValue::Flag(failed), &tags, now, SampleType::Rate);
    samples::push(sink, "data_received", SampleValue::Count(size), &tags, now, SampleType::Counter);
    samples::push(sink, "data_sent", SampleValue::Count(sent), &tags, now, SampleType::Counter);
    assert(samples::views(sink@) =~= samples::views(old(sink)@) + response_samples(
        status_code,
        duration,
        size,
        sent,
        timings,
        string_map::texts(tags@),
        now,
    ));
}

pub open spec fn hop_views(hops: Seq<RedirectHop>) -> Seq<RedirectView> {
    hops.map_values(|h: RedirectHop| h@)
}

/// Adds the samples of every hop of a redirected request, in order.
pub fn push_redirect_hops(
    sink: &mut Vec<Sample>,
    hops: &Vec<RedirectHop>,
    method: &str,
    scenario: &str,
    extra_tags: Option<&StringMap<String>>,
    group: Option<&str>,
    now: u64,
)
    ensures
        samples::views(final(sink)@) == samples::views(old(sink)@) + hop_samples(
            hop_views(hops@),
            method@,
            scenario@,
            opt_tags(extra_tags),
            json::opt_view(group),
            now,
        ),
{
    let ghost all = hop_views(hops@);
    let ghost start = samples::views(sink@);
    let mut i: usize = 0;
    assert(start + Seq::<samples::SampleView>::empty() =~= start);
    while i < hops.len()
        invariant
            i <= hops@.len(),
            all == hop_views(hops@),
            samples::views(sink@) == start + hop_samples(
                all.take(i as int),
                method@,
                scenario@,
                opt_tags(extra_tags),
                json::opt_view(group),
                now,
            ),
        decreases hops@.len() - i,
    {
        let hop = &hops[i];
        push_http_samples_for(
            sink,
            hop.url.as_str(),
            method,
            hop.status_code,
            hop.response_time,
            hop.size,
            0,
            hop.timings,
            scenario,
            extra_tags,
            group,
            now,
        );
        proof {
            assert(all.take(i + 1).drop_last() =~= all.take(i as int));
            assert(all.take(i + 1).last() == hop@);
            assert(samples::views(sink@) =~= start + hop_samples(
                all.take(i + 1),
                method@,
                scenario@,
                opt_tags(extra_tags),
                json::opt_view(group),
                now,
            ));
        }
        i += 1;
    }
    assert(all.take(hops@.len() as int) =~= all);
}

/// Adds the samples of a request that got no response.
pub fn push_http_failure(
    sink: &mut Vec<Sample>,
    url: &str,
    method: &str,
    scenario: &str,
    extra_tags: Option<&StringMap<String>>,
    group: Option<&str>,
    elapsed: u128,
    sent: u64,
    now: u64,
)
    ensures
        samples::views(final(sink)@) == samples::views(old(sink)@) + failure_samples(
            elapsed,
            sent,
            http_tag_map(
                url@,
                method@,
                "0"@,
                scenario@,
                opt_tags(extra_tags),
                json::opt_view(group),
            ),
            now,
        ),
{
    let tags = http_tags_for(url, method, "0", scenario, extra_tags, group);
    samples::push(
        sink,
        "http_req_duration",
        SampleValue::Nanos(elapsed),
        &tags,
        now,
        SampleType::Trend,
    );
    samples::push(sink, "http_reqs", SampleValue::Count(1), &tags, now, SampleType::Counter);
    samples::push(sink, "http_req_failed", SampleValue::Flag(true), &tags, now, SampleType::Rate);
    samples::push(sink, "data_sent", SampleValue::Count(sent), &tags, now, SampleType::Counter);
    assert(samples::views(sink@) =~= samples::views(old(sink)@) + failure_samples(
        elapsed,
        sent,
        string_map::texts(tags@),
        now,
    ));
}

// ── laws ──

/// A tag that the script passes wins over the one that the request would have.
pub proof fn law_script_tags_win(
    url: Seq<char>,
    method: Seq<char>,
    status: Seq<char>,
    scenario: Seq<char>,
    extra: Map<Seq<char>, Seq<char>>,
    group: Option<Seq<char>>,
    key: Seq<char>,
)
    requires
        extra.contains_key(key),
    ensures
        http_tag_map(url, method, status, scenario, Some(extra), group).contains_key(key),
        http_tag_map(url, method, status, scenario, Some(extra), group)[key] == extra[key],
{
}

/// A request always has its address, method, status, name and group as tags.
pub proof fn law_requests_are_tagged(
    url: Seq<char>,
    method: Seq<char>,
    status: Seq<char>,
    scenario: Seq<char>,
    extra: Option<Map<Seq<char>, Seq<char>>>,
    group: Option<Seq<char>>,
)
    ensures
        ({
            let tags = http_tag_map(url, method, status, scenario, extra, group);
            &&& tags.contains_key("url"@)
            &&& tags.contains_key("method"@)
            &&& tags.contains_key("status"@)
            &&& tags.contains_key("name"@)
            &&& tags.contains_key("group"@)
            &&& scenario.len() > 0 ==> tags.contains_key("scenario"@)
        }),
{
}

/// Every hop counts as one request.
pub proof fn law_every_hop_is_counted(
    hops: Seq<RedirectView>,
    method: Seq<char>,
    scenario: Seq<char>,
    extra: Option<Map<Seq<char>, Seq<char>>>,
    group: Option<Seq<char>>,
    now: u64,
)
    ensures
        requests_counted(hop_samples(hops, method, scenario, extra, group, now)) == hops.len(),
    decreases hops.len(),
{
    if hops.len() > 0 {
        let hop = hops.last();
        let before = hop_samples(hops.drop_last(), method, scenario, extra, group, now);
        let tags = http_tag_map(
            hop.url,
            method,
            text::decimal(hop.status_code as nat),
            scenario,
            extra,
            group,
        );
        let own = response_samples(
            hop.status_code,
            hop.response_time,
            hop.size,
            0,
            hop.timings,
            tags,
            now,
        );
        law_every_hop_is_counted(hops.drop_last(), method, scenario, extra, group, now);
        law_response_is_one_request(
            hop.status_code,
            hop.response_time,
            hop.size,
            0,
            hop.timings,
            tags,
            now,
        );
        lemma_counted_in_both(before, own);
    }
}

/// How many requests a list of samples counts.
pub open spec fn requests_counted(s: Seq<samples::SampleView>) -> nat
    decreases s.len(),
{
    if s.len() == 0 {
        0
    } else {
        requests_counted(s.drop_last()) + if s.last().metric == "http_reqs"@ {
            1nat
        } else {
            0nat
        }
    }
}

proof fn lemma_counted_in_both(a: Seq<samples::SampleView>, b: Seq<samples::SampleView>)
    ensures
        requests_counted(a + b) == requests_counted(a) + requests_counted(b),
    decreases b.len(),
{
    if b.len() == 0 {
        assert(a + b =~= a);
    } else {
        assert((a + b).drop_last() =~= a + b.drop_last());
        lemma_counted_in_both(a, b.drop_last());
    }
}

proof fn lemma_none_counted(s: Seq<samples::SampleView>)
    requires
        forall|i: int| 0 <= i < s.len() ==> (#[trigger] s[i]).metric != "http_reqs"@,
    ensures
        requests_counted(s) == 0,
    decreases s.len(),
{
    if s.len() > 0 {
        assert(s.last().metric != "http_reqs"@);
        assert forall|i: int| 0 <= i < s.drop_last().len() implies (
        #[trigger] s.drop_last()[i]).metric != "http_reqs"@ by {
            assert(s.drop_last()[i] == s[i]);
        }
        lemma_none_counted(s.drop_last());
    }
}

proof fn lemma_metric_names()
    ensures
        "http_reqs"@.len() == 9,
        "http_req_duration"@.len() == 17,
        "http_req_blocked"@.len() == 16,
        "http_req_dns"@.len() == 12,
        "http_req_connecting"@.len() == 19,
        "http_req_tls_handshaking"@.len() == 24,
        "http_req_sending"@.len() == 16,
        "http_req_waiting"@.len() == 16,
        "http_req_receiving"@.len() == 18,
        "http_req_failed"@.len() == 15,
        "data_received"@.len() == 13,
        "data_sent"@.len() == 9,
        "data_sent"@ != "http_reqs"@,
        "http_req_blocked"@ != "http_req_sending"@,
        "http_req_blocked"@ != "http_req_waiting"@,
        "http_req_sending"@ != "http_req_waiting"@,
{
    reveal_strlit("http_reqs");
    reveal_strlit("http_req_duration");
    reveal_strlit("http_req_blocked");
    reveal_strlit("http_req_dns");
    reveal_strlit("http_req_connecting");
    reveal_strlit("http_req_tls_handshaking");
    reveal_strlit("http_req_sending");
    reveal_strlit("http_req_waiting");
    reveal_strlit("http_req_receiving");
    reveal_strlit("http_req_failed");
    reveal_strlit("data_received");
    reveal_strlit("data_sent");
    assert("data_sent"@[0] != "http_reqs"@[0]);
    assert("http_req_blocked"@[9] != "http_req_sending"@[9]);
    assert("http_req_blocked"@[9] != "http_req_waiting"@[9]);
    assert("http_req_sending"@[9] != "http_req_waiting"@[9]);
}

/// A response counts as one request, whatever its status.
pub proof fn law_response_is_one_request(
    status: u16,
    duration: u128,
    size: u64,
    sent: u64,
    timings: Option<Timings>,
    tags: Map<Seq<char>, Seq<char>>,
    now: u64,
)
    ensures
        requests_counted(response_samples(status, duration, size, sent, timings, tags, now)) == 1,
{
    lemma_metric_names();
    let all = response_samples(status, duration, size, sent, timings, tags, now);
    let n = all.len() as int;
    let tail = all.subrange(n - 3, n);
    let one = all.subrange(n - 4, n - 3);
    let head = all.subrange(0, n - 4);
    assert(all =~= head + one + tail);
    lemma_none_counted(head);
    lemma_none_counted(tail);
    lemma_counted_in_both(head, one);
    lemma_counted_in_both(head + one, tail);
    reveal_with_fuel(requests_counted, 2);
    assert(one.len() == 1);
}

/// A failed attempt counts as one request too, and as a failure.
pub proof fn law_failure_is_one_request(
    elapsed: u128,
    sent: u64,
    tags: Map<Seq<char>, Seq<char>>,
    now: u64,
)
    ensures
        requests_counted(failure_samples(elapsed, sent, tags, now)) == 1,
        failure_samples(elapsed, sent, tags, now).contains(
            samples::sample("http_req_failed"@, SampleValue::Flag(true), tags, now, SampleType::Rate),
        ),
{
    lemma_metric_names();
    let all = failure_samples(elapsed, sent, tags, now);
    assert(all =~= all.subrange(0, 1) + all.subrange(1, 2) + all.subrange(2, 4));
    lemma_none_counted(all.subrange(0, 1));
    lemma_none_counted(all.subrange(2, 4));
    lemma_counted_in_both(all.subrange(0, 1), all.subrange(1, 2));
    lemma_counted_in_both(all.subrange(0, 1) + all.subrange(1, 2), all.subrange(2, 4));
    reveal_with_fuel(requests_counted, 2);
    assert(all.subrange(1, 2).len() == 1);
    assert(all[2] == samples::sample(
        "http_req_failed"@,
        SampleValue::Flag(true),
        tags,
        now,
        SampleType::Rate,
    ));
}

/// The samples of a response with timings: each phase is recorded once, under its
/// own name and with its own time.
pub proof fn law_each_phase_has_its_time(
    status: u16,
    duration: u128,
    size: u64,
    sent: u64,
    t: Timings,
    tags: Map<Seq<char>, Seq<char>>,
    now: u64,
)
    ensures
        ({
            let s = response_samples(status, duration, size, sent, Some(t), tags, now);
            let phase = |metric: Seq<char>, nanos: u128|
                samples::recorded_once(
                    s,
                    metric,
                    SampleValue::Nanos(nanos),
                    tags,
                    now,
                    SampleType::Trend,
                );
            &&& phase("http_req_blocked"@, t.blocked)
            &&& phase("http_req_dns"@, t.dns)
            &&& phase("http_req_connecting"@, t.connecting)
            &&& phase("http_req_tls_handshaking"@, t.tls_handshaking)
            &&& phase("http_req_sending"@, t.sending)
            &&& phase("http_req_waiting"@, t.waiting)
            &&& phase("http_req_receiving"@, t.receiving)
        }),
{
    lemma_metric_names();
    let s = response_samples(status, duration, size, sent, Some(t), tags, now);
    assert(s.len() == 12);
    samples::lemma_recorded_once(s, 1);
    samples::lemma_recorded_once(s, 2);
    samples::lemma_recorded_once(s, 3);
    samples::lemma_recorded_once(s, 4);
    samples::lemma_recorded_once(s, 5);
    samples::lemma_recorded_once(s, 6);
    samples::lemma_recorded_once(s, 7);
}

/// The samples of a response: its time, one request, whether it failed, and the
/// bytes each way are recorded once each. Statuses from 200 to 399 are no failure.
/// Without timings no phase is recorded.
pub proof fn law_response_is_recorded(
    status: u16,
    duration: u128,
    size: u64,
    sent: u64,
    timings: Option<Timings>,
    tags: Map<Seq<char>, Seq<char>>,
    now: u64,
)
    ensures
        ({
            let s = response_samples(status, duration, size, sent, timings, tags, now);
            let once = |metric: Seq<char>, value: SampleValue, sample_type: SampleType|
                samples::recorded_once(s, metric, value, tags, now, sample_type);
            &&& once("http_req_duration"@, SampleValue::Nanos(duration), SampleType::Trend)
            &&& once("http_reqs"@, SampleValue::Count(1), SampleType::Counter)
            &&& status >= 200 && status <= 399 ==> once(
                "http_req_failed"@,
                SampleValue::Flag(false),
                SampleType::Rate,
            )
            &&& status < 200 || status > 399 ==> once(
                "http_req_failed"@,
                SampleValue::Flag(true),
                SampleType::Rate,
            )
            &&& once("data_received"@, SampleValue::Count(size), SampleType::Counter)
            &&& once("data_sent"@, SampleValue::Count(sent), SampleType::Counter)
            &&& timings is None ==> s.len() == 5
            &&& timings is Some ==> s.len() == 12
        }),
{
    lemma_metric_names();
    let s = response_samples(status, duration, size, sent, timings, tags, now);
    let n = s.len() as int;
    assert(n == if timings is Some {
        12int
    } else {
        5int
    });
    samples::lemma_recorded_once(s, 0);
    samples::lemma_recorded_once(s, n - 4);
    samples::lemma_recorded_once(s, n - 3);
    samples::lemma_recorded_once(s, n - 2);
    samples::lemma_recorded_once(s, n - 1);
}

/// The samples of a failure: the time until it failed, one request, that it failed,
/// and the bytes that were sent. Nothing else is recorded.
pub proof fn law_failure_is_recorded(
    elapsed: u128,
    sent: u64,
    tags: Map<Seq<char>, Seq<char>>,
    now: u64,
)
    ensures
        ({
            let s = failure_samples(elapsed, sent, tags, now);
            let once = |metric: Seq<char>, value: SampleValue, sample_type: SampleType|
                samples::recorded_once(s, metric, value, tags, now, sample_type);
            &&& s.len() == 4
            &&& once("http_req_duration"@, SampleValue::Nanos(elapsed), SampleType::Trend)
            &&& once("http_reqs"@, SampleValue::Count(1), SampleType::Counter)
            &&& once("http_req_failed"@, SampleValue::Flag(true), SampleType::Rate)
            &&& once("data_sent"@, SampleValue::Count(sent), SampleType::Counter)
        }),
{
    lemma_metric_names();
    let s = failure_samples(elapsed, sent, tags, now);
    samples::lemma_recorded_once(s, 0);
    samples::lemma_recorded_once(s, 1);
    samples::lemma_recorded_once(s, 2);
    samples::lemma_recorded_once(s, 3);
}

/// The hops of two lists, one after the other, leave the samples of the first and
/// behind them those of the second.
pub proof fn law_hops_are_recorded_in_order(
    a: Seq<RedirectView>,
    b: Seq<RedirectView>,
    method: Seq<char>,
    scenario: Seq<char>,
    extra: Option<Map<Seq<char>, Seq<char>>>,
    group: Option<Seq<char>>,
    now: u64,
)
    ensures
        hop_samples(a + b, method, scenario, extra, group, now) == hop_samples(
            a,
            method,
            scenario,
            extra,
            group,
            now,
        ) + hop_samples(b, method, scenario, extra, group, now),
    decreases b.len(),
{
    let x = hop_samples(a, method, scenario, extra, group, now);
    if b.len() == 0 {
        assert(a + b =~= a);
        assert(x + Seq::<samples::SampleView>::empty() =~= x);
    } else {
        law_hops_are_recorded_in_order(a, b.drop_last(), method, scenario, extra, group, now);
        assert((a + b).drop_last() =~= a + b.drop_last());
        assert((a + b).last() == b.last());
        assert(hop_samples(a + b, method, scenario, extra, group, now) =~= x + hop_samples(
            b,
            method,
            scenario,
            extra,
            group,
            now,
        ));
    }
}

/// One hop: it has the tags of a request to its own address with its own status,
/// the ones of the script with them. Its time, its size and each of its phases are
/// recorded, and no bytes are sent.
pub proof fn law_hop_is_recorded(
    hop: RedirectView,
    method: Seq<char>,
    scenario: Seq<char>,
    extra: Option<Map<Seq<char>, Seq<char>>>,
    group: Option<Seq<char>>,
    now: u64,
)
    ensures
        ({
            let s = hop_samples(seq![hop], method, scenario, extra, group, now);
            let tags = http_tag_map(
                hop.url,
                method,
                text::decimal(hop.status_code as nat),
                scenario,
                extra,
                group,
            );
            let once = |metric: Seq<char>, value: SampleValue, sample_type: SampleType|
                samples::recorded_once(s, metric, value, tags, now, sample_type);
            &&& once("http_reqs"@, SampleValue::Count(1), SampleType::Counter)
            &&& once(
                "http_req_duration"@,
                SampleValue::Nanos(hop.response_time),
                SampleType::Trend,
            )
            &&& once("data_received"@, SampleValue::Count(hop.size), SampleType::Counter)
            &&& once("data_sent"@, SampleValue::Count(0), SampleType::Counter)
            &&& once(
                "http_req_failed"@,
                SampleValue::Flag(hop.status_code < 200 || hop.status_code > 399),
                SampleType::Rate,
            )
            &&& hop.timings is None ==> s.len() == 5
            &&& hop.timings matches Some(t) ==> {
                &&& once("http_req_blocked"@, SampleValue::Nanos(t.blocked), SampleType::Trend)
                &&& once("http_req_dns"@, SampleValue::Nanos(t.dns), SampleType::Trend)
                &&& once("http_req_connecting"@, SampleValue::Nanos(t.connecting), SampleType::Trend)
                &&& once(
                    "http_req_tls_handshaking"@,
                    SampleValue::Nanos(t.tls_handshaking),
                    SampleType::Trend,
                )
                &&& once("http_req_sending"@, SampleValue::Nanos(t.sending), SampleType::Trend)
                &&& once("http_req_waiting"@, SampleValue::Nanos(t.waiting), SampleType::Trend)
                &&& once("http_req_receiving"@, SampleValue::Nanos(t.receiving), SampleType::Trend)
            }
        }),
{
    let status = text::decimal(hop.status_code as nat);
    let tags = http_tag_map(hop.url, method, status, scenario, extra, group);
    law_response_is_recorded(
        hop.status_code,
        hop.response_time,
        hop.size,
        0,
        hop.timings,
        tags,
        now,
    );
    if let Some(t) = hop.timings {
        law_each_phase_has_its_time(
            hop.status_code,
            hop.response_time,
            hop.size,
            0,
            t,
            tags,
            now,
        );
    }
    let own = response_samples(
        hop.status_code,
        hop.response_time,
        hop.size,
        0,
        hop.timings,
        tags,
        now,
    );
    assert(seq![hop].drop_last() =~= Seq::empty());
    assert(hop_samples(seq![hop].drop_last(), method, scenario, extra, group, now)
        =~= Seq::empty());
    assert(hop_samples(seq![hop], method, scenario, extra, group, now) =~= own);
}

proof fn lemma_tag_names()
    ensures
        "url"@.len() == 3,
        "method"@.len() == 6,
        "status"@.len() == 6,
        "name"@.len() == 4,
        "group"@.len() == 5,
        "scenario"@.len() == 8,
        "method"@ != "status"@,
{
    reveal_strlit("url");
    reveal_strlit("method");
    reveal_strlit("status");
    reveal_strlit("name");
    reveal_strlit("group");
    reveal_strlit("scenario");
    assert("method"@[0] != "status"@[0]);
}

/// The tags of a request: its address, which is also its name, its method, its
/// status, its group or `http`, its scenario where that has a name, and no others.
pub proof fn law_tags_of_a_request(
    url: Seq<char>,
    method: Seq<char>,
    status: Seq<char>,
    scenario: Seq<char>,
    group: Option<Seq<char>>,
)
    ensures
        ({
            let tags = http_tag_map(url, method, status, scenario, None, group);
            &&& tags["url"@] == url
            &&& tags["name"@] == url
            &&& tags["method"@] == method
            &&& tags["status"@] == status
            &&& group is Some ==> tags["group"@] == group->0
            &&& group is None ==> tags["group"@] == "http"@
            &&& scenario.len() > 0 ==> tags["scenario"@] == scenario
            &&& tags.contains_key("scenario"@) <==> scenario.len() > 0
            &&& forall|k: Seq<char>| #[trigger]
                tags.contains_key(k) ==> k == "url"@ || k == "name"@ || k == "method"@ || k
                    == "status"@ || k == "group"@ || k == "scenario"@
        }),
{
    lemma_tag_names();
}

/// Tags of the script change nothing but the tags with their names.
pub proof fn law_other_tags_are_kept(
    url: Seq<char>,
    method: Seq<char>,
    status: Seq<char>,
    scenario: Seq<char>,
    extra: Map<Seq<char>, Seq<char>>,
    group: Option<Seq<char>>,
    key: Seq<char>,
)
    requires
        !extra.contains_key(key),
    ensures
        ({
            let with = http_tag_map(url, method, status, scenario, Some(extra), group);
            let without = http_tag_map(url, method, status, scenario, None, group);
            &&& with.contains_key(key) == without.contains_key(key)
            &&& without.contains_key(key) ==> with[key] == without[key]
        }),
{
}

/// A value of a tag: a string is kept, null is empty, and any other value is its
/// JSON text.
pub proof fn law_tag_values(value: json::JsonView)
    ensures
        value.node matches json::NodeView::Text(s) ==> tag_text(value) == s,
        value.node is Null ==> tag_text(value).len() == 0,
        value.node is Bool || value.node is Number || value.node is Array || value.node is Object
            ==> tag_text(value) == value.text,
{
}

/// The tags of an object: the last entry with a key gives its tag.
pub proof fn law_last_entry_gives_the_tag(
    tags: Map<Seq<char>, Seq<char>>,
    entries: Seq<(Seq<char>, json::JsonView)>,
    i: int,
)
    requires
        0 <= i < entries.len(),
        forall|j: int| i < j < entries.len() ==> (#[trigger] entries[j]).0 != entries[i].0,
    ensures
        with_entries(tags, entries).contains_key(entries[i].0),
        with_entries(tags, entries)[entries[i].0] == tag_text(entries[i].1),
    decreases entries.len(),
{
    if i < entries.len() - 1 {
        let front = entries.drop_last();
        assert(front[i] == entries[i]);
        assert forall|j: int| i < j < front.len() implies (#[trigger] front[j]).0 != front[i].0 by {
            assert(front[j] == entries[j]);
        }
        law_last_entry_gives_the_tag(tags, front, i);
        assert(entries[entries.len() - 1].0 != entries[i].0);
    }
}

/// A tag that no entry names stays as it was.
pub proof fn law_unnamed_tags_stay(
    tags: Map<Seq<char>, Seq<char>>,
    entries: Seq<(Seq<char>, json::JsonView)>,
    key: Seq<char>,
)
    requires
        forall|i: int| 0 <= i < entries.len() ==> (#[trigger] entries[i]).0 != key,
    ensures
        with_entries(tags, entries).contains_key(key) == tags.contains_key(key),
        tags.contains_key(key) ==> with_entries(tags, entries)[key] == tags[key],
    decreases entries.len(),
{
    if entries.len() > 0 {
        let front = entries.drop_last();
        assert forall|i: int| 0 <= i < front.len() implies (#[trigger] front[i]).0 != key by {
            assert(front[i] == entries[i]);
        }
        law_unnamed_tags_stay(tags, front, key);
        assert(entries[entries.len() - 1].0 != key);
    }
}

/// A document adds its entries where it is an object, and nothing where it is not.
pub proof fn law_only_objects_add_tags(
    tags: Map<Seq<char>, Seq<char>>,
    doc: Option<json::JsonView>,
)
    ensures
        doc is None || !(doc->0.node is Object) ==> with_document(tags, doc) == tags,
        doc is Some && doc->0.node is Object ==> with_document(tags, doc) == with_entries(
            tags,
            doc->0.node->Object_0,
        ),
{
}

} // verus!
