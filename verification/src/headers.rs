//! Header lists of requests and of WebSocket handshakes.

use crate::json;
use crate::json::Json;
use crate::string_map;
use crate::string_map::StringMap;
use crate::text;
use vstd::prelude::*;
use vstd::string::*;

verus! {

/// A list of pairs by its views.
pub open spec fn pair_views(v: Seq<(String, String)>) -> Seq<(Seq<char>, Seq<char>)> {
    v.map_values(|p: (String, String)| (p.0@, p.1@))
}

/// The header that an entry of an object declares. Strings, numbers and truth
/// values are header values, and nothing else is.
pub open spec fn entry_header(key: Seq<char>, value: json::JsonView) -> Option<
    (Seq<char>, Seq<char>),
> {
    match value.node {
        json::NodeView::Text(s) => Some((key, s)),
        json::NodeView::Number(_) => Some((key, value.text)),
        json::NodeView::Bool(_) => Some((key, value.text)),
        _ => None,
    }
}

/// The headers of an object, in the order of its entries.
pub open spec fn object_headers(entries: Seq<(Seq<char>, json::JsonView)>) -> Seq<
    (Seq<char>, Seq<char>),
>
    decreases entries.len(),
{
    if entries.len() == 0 {
        Seq::empty()
    } else {
        let before = object_headers(entries.drop_last());
        match entry_header(entries.last().0, entries.last().1) {
            Some(h) => before.push(h),
            None => before,
        }
    }
}

pub open spec fn text_or_empty(s: Option<Seq<char>>) -> Seq<char> {
    match s {
        Some(s) => s,
        None => Seq::empty(),
    }
}

/// The headers of a list of `key` and `value` objects. One without a key is left
/// out.
pub open spec fn list_headers(items: Seq<json::JsonView>) -> Seq<(Seq<char>, Seq<char>)>
    decreases items.len(),
{
    if items.len() == 0 {
        Seq::empty()
    } else {
        let before = list_headers(items.drop_last());
        let key = text_or_empty(json::text_member(items.last(), "key"@));
        let value = text_or_empty(json::text_member(items.last(), "value"@));
        if key.len() > 0 {
            before.push((key, value))
        } else {
            before
        }
    }
}

/// Every item is an object.
pub open spec fn all_objects(items: Seq<json::JsonView>) -> bool {
    forall|i: int| 0 <= i < items.len() ==> (#[trigger] items[i]).node is Object
}

/// The headers that a text declares, where `doc` is the document that it holds.
pub open spec fn declared_headers(json: Seq<char>, doc: Option<json::JsonView>) -> Seq<
    (Seq<char>, Seq<char>),
> {
    let start = text::trim_start(json);
    if start.len() > 0 && start[0] == '{' && json::as_object(doc) is Some {
        object_headers(json::as_object(doc)->0)
    } else if start.len() > 0 && start[0] == '[' && json::as_array(doc) is Some && all_objects(
        json::as_array(doc)->0,
    ) {
        list_headers(json::as_array(doc)->0)
    } else {
        Seq::empty()
    }
}

fn object_to_headers(entries: &Vec<(String, Json)>) -> (r: Vec<(String, String)>)
    ensures
        pair_views(r@) == object_headers(json::entries_view(entries@)),
{
    let ghost all = json::entries_view(entries@);
    let mut r: Vec<(String, String)> = Vec::new();
    let mut i: usize = 0;
    assert(pair_views(r@) =~= Seq::empty());
    while i < entries.len()
        invariant
            i <= entries@.len(),
            all == json::entries_view(entries@),
            pair_views(r@) == object_headers(all.take(i as int)),
        decreases entries@.len() - i,
    {
        let ghost before = r@;
        let value = &entries[i].1;
        if let Some(s) = value.as_str() {
            r.push((entries[i].0.clone(), s.to_owned()));
            assert(pair_views(r@) =~= pair_views(before).push((entries@[i as int].0@, s@)));
        } else if value.as_number().is_some() || value.as_bool().is_some() {
            r.push((entries[i].0.clone(), value.text.clone()));
            assert(pair_views(r@) =~= pair_views(before).push(
                (entries@[i as int].0@, value@.text),
            ));
        }
        assert(all.take(i + 1).drop_last() =~= all.take(i as int));
        assert(all.take(i + 1).last() == (entries@[i as int].0@, value@));
        i += 1;
    }
    assert(all.take(entries@.len() as int) =~= all);
    r
}

fn or_empty(s: Option<&str>) -> (r: String)
    ensures
        r@ == text_or_empty(json::opt_view(s)),
{
    match s {
        Some(s) => s.to_owned(),
        None => String::new(),
    }
}

fn only_objects(items: &Vec<Json>) -> (r: bool)
    ensures
        r == all_objects(json::items_view(items@)),
{
    let ghost all = json::items_view(items@);
    let mut i: usize = 0;
    while i < items.len()
        invariant
            i <= items@.len(),
            all == json::items_view(items@),
            forall|k: int| 0 <= k < i ==> (#[trigger] all[k]).node is Object,
        decreases items@.len() - i,
    {
        if items[i].as_object().is_none() {
            assert(!(all[i as int].node is Object));
            return false;
        }
        i += 1;
    }
    true
}

fn list_to_headers(items: &Vec<Json>) -> (r: Vec<(String, String)>)
    ensures
        pair_views(r@) == list_headers(json::items_view(items@)),
{
    let ghost all = json::items_view(items@);
    let mut r: Vec<(String, String)> = Vec::new();
    let mut i: usize = 0;
    assert(pair_views(r@) =~= Seq::empty());
    while i < items.len()
        invariant
            i <= items@.len(),
            all == json::items_view(items@),
            pair_views(r@) == list_headers(all.take(i as int)),
        decreases items@.len() - i,
    {
        let ghost before = r@;
        let key = or_empty(items[i].text_of("key"));
        let value = or_empty(items[i].text_of("value"));
        if !text::empty(key.as_str()) {
            r.push((key, value));
            assert(pair_views(r@) =~= pair_views(before).push((key@, value@)));
        }
        assert(all.take(i + 1).drop_last() =~= all.take(i as int));
        assert(all.take(i + 1).last() == items@[i as int]@);
        i += 1;
    }
    assert(all.take(items@.len() as int) =~= all);
    r
}

fn first_after_space(s: &str) -> (r: Option<char>)
    ensures
        match r {
            Some(c) => text::trim_start(s@).len() > 0 && text::trim_start(s@)[0] == c,
            None => text::trim_start(s@).len() == 0,
        },
{
    let v = text::chars_of(s);
    let i = text::leading_space(&v);
    if i < v.len() {
        Some(v[i])
    } else {
        None
    }
}

/// The headers that a text declares, given the document that it holds.
pub fn headers_in(json: &str, doc: Option<&Json>) -> (r: Vec<(String, String)>)
    ensures
        pair_views(r@) == declared_headers(json@, json::opt_json(doc)),
{
    let start = first_after_space(json);
    if let Some(doc) = doc {
        if start == Some('{') {
            if let Some(entries) = doc.as_object() {
                return object_to_headers(entries);
            }
        } else if start == Some('[') {
            if let Some(items) = doc.as_array() {
                if only_objects(items) {
                    return list_to_headers(items);
                }
            }
        }
    }
    let r: Vec<(String, String)> = Vec::new();
    assert(pair_views(r@) =~= Seq::empty());
    r
}

/// The headers that a JSON text declares: an object with a header in each entry,
/// or a list of `key` and `value` objects. Any other text declares none.
pub fn parse_headers_tolerant(json: &str) -> (r: Vec<(String, String)>)
    ensures
        pair_views(r@) == declared_headers(json@, json::json_document(json@)),
{
    match Json::parse(json) {
        Some(doc) => headers_in(json, Some(&doc)),
        None => headers_in(json, None),
    }
}

// ── handshakes ──

/// The characters of a header name.
pub open spec fn is_name_char(c: char) -> bool {
    ||| '0' <= c <= '9'
    ||| 'a' <= c <= 'z'
    ||| 'A' <= c <= 'Z'
    ||| c == '!' || c == '#' || c == '$' || c == '%' || c == '&' || c == '\'' || c == '*' || c == '+'
    ||| c == '-' || c == '.' || c == '^' || c == '_' || c == '`' || c == '|' || c == '~'
}

/// A header name: from one to 65535 characters of a token.
pub open spec fn is_header_name(s: Seq<char>) -> bool {
    0 < s.len() <= 0xffff && forall|i: int| 0 <= i < s.len() ==> is_name_char(#[trigger] s[i])
}

/// A header value: no control character but the tabulator.
pub open spec fn is_header_value(s: Seq<char>) -> bool {
    forall|i: int|
        0 <= i < s.len() ==> ((#[trigger] s[i]) as u32 >= 32 && s[i] as u32 != 127) || s[i] as u32
            == 9
}

/// `http::HeaderName::from_bytes` takes the name of a header and writes it in
/// lower case. It fails where a character is not one of a token, and where the
/// name is empty or has more than 65535 bytes.
#[verifier::external_body]
fn header_name(name: &str) -> (r: Option<String>)
    ensures
        match r {
            Some(n) => is_header_name(name@) && n@ == text::lower(name@),
            None => !is_header_name(name@),
        },
{
    http::HeaderName::from_bytes(name.as_bytes()).ok().map(|n| n.as_str().to_owned())
}

/// `http::HeaderValue::from_str` takes the value of a header. It fails where a
/// byte is a control character other than the tabulator.
#[verifier::external_body]
fn takes_header_value(value: &str) -> (r: bool)
    ensures
        r == is_header_value(value@),
{
    http::HeaderValue::from_str(value).is_ok()
}

/// The headers that a handshake adds to its own. A header that is not valid is
/// left out, and of two with the same name the later one is kept.
pub open spec fn handshake_headers(headers: Seq<(Seq<char>, Seq<char>)>) -> Map<
    Seq<char>,
    Seq<char>,
>
    decreases headers.len(),
{
    if headers.len() == 0 {
        Map::empty()
    } else {
        let before = handshake_headers(headers.drop_last());
        let (name, value) = headers.last();
        if is_header_name(name) && is_header_value(value) {
            before.insert(text::lower(name), value)
        } else {
            before
        }
    }
}

/// The headers that a handshake adds to its own.
pub fn to_handshake_headers(headers: &Vec<(String, String)>) -> (r: StringMap<String>)
    ensures
        string_map::texts(r@) == handshake_headers(pair_views(headers@)),
{
    let ghost all = pair_views(headers@);
    let mut r: StringMap<String> = StringMap::new();
    let mut i: usize = 0;
    assert(string_map::texts(r@) =~= Map::empty());
    while i < headers.len()
        invariant
            i <= headers@.len(),
            all == pair_views(headers@),
            string_map::texts(r@) == handshake_headers(all.take(i as int)),
        decreases headers@.len() - i,
    {
        if let Some(name) = header_name(headers[i].0.as_str()) {
            if takes_header_value(headers[i].1.as_str()) {
                r.set(name.as_str(), headers[i].1.as_str());
            }
        }
        assert(all.take(i + 1).drop_last() =~= all.take(i as int));
        assert(all.take(i + 1).last() == (headers@[i as int].0@, headers@[i as int].1@));
        i += 1;
    }
    assert(all.take(headers@.len() as int) =~= all);
    r
}

// ── laws ──

proof fn lemma_object_headers_drop(entries: Seq<(Seq<char>, json::JsonView)>, i: int)
    requires
        0 <= i < entries.len(),
        entry_header(entries[i].0, entries[i].1) is Some,
    ensures
        object_headers(entries).contains(entry_header(entries[i].0, entries[i].1)->0),
    decreases entries.len(),
{
    let h = entry_header(entries[i].0, entries[i].1)->0;
    let before = object_headers(entries.drop_last());
    if i == entries.len() - 1 {
        assert(object_headers(entries)[before.len() as int] == h);
    } else {
        lemma_object_headers_drop(entries.drop_last(), i);
        let k = choose|k: int| 0 <= k < before.len() && before[k] == h;
        assert(object_headers(entries)[k] == h);
    }
}

/// A value that is no header value does not cost the other headers of its object.
pub proof fn law_every_valid_entry_is_a_header(
    json: Seq<char>,
    doc: json::JsonView,
    entries: Seq<(Seq<char>, json::JsonView)>,
    i: int,
)
    requires
        text::trim_start(json).len() > 0,
        text::trim_start(json)[0] == '{',
        doc.node == json::NodeView::Object(entries),
        0 <= i < entries.len(),
        entry_header(entries[i].0, entries[i].1) is Some,
    ensures
        declared_headers(json, Some(doc)).contains(
            entry_header(entries[i].0, entries[i].1)->0,
        ),
{
    lemma_object_headers_drop(entries, i);
}

/// The header of an entry: a string is its value, a number or a truth value its
/// JSON text, and nothing else has one.
pub proof fn law_header_values(key: Seq<char>, value: json::JsonView)
    ensures
        value.node matches json::NodeView::Text(s) ==> entry_header(key, value) == Some((key, s)),
        value.node is Number || value.node is Bool ==> entry_header(key, value) == Some(
            (key, value.text),
        ),
        value.node is Null || value.node is Array || value.node is Object ==> entry_header(
            key,
            value,
        ) is None,
{
}

/// An object whose values are all header values declares one header for each entry,
/// in order.
pub proof fn law_object_headers_keep_their_order(
    entries: Seq<(Seq<char>, json::JsonView)>,
    i: int,
)
    requires
        forall|k: int|
            0 <= k < entries.len() ==> entry_header(
                (#[trigger] entries[k]).0,
                entries[k].1,
            ) is Some,
    ensures
        object_headers(entries).len() == entries.len(),
        0 <= i < entries.len() ==> Some(object_headers(entries)[i]) == entry_header(
            entries[i].0,
            entries[i].1,
        ),
    decreases entries.len(),
{
    if entries.len() > 0 {
        let front = entries.drop_last();
        assert forall|k: int| 0 <= k < front.len() implies entry_header(
            (#[trigger] front[k]).0,
            front[k].1,
        ) is Some by {
            assert(front[k] == entries[k]);
        }
        law_object_headers_keep_their_order(front, i);
        let last = entries[entries.len() - 1];
        assert(entry_header(last.0, last.1) is Some);
    }
}

/// An entry without a header value changes nothing.
pub proof fn law_other_entries_are_passed_over(
    before: Seq<(Seq<char>, json::JsonView)>,
    entry: (Seq<char>, json::JsonView),
    after: Seq<(Seq<char>, json::JsonView)>,
)
    requires
        entry_header(entry.0, entry.1) is None,
    ensures
        object_headers(before.push(entry) + after) == object_headers(before + after),
    decreases after.len(),
{
    let with = before.push(entry) + after;
    let without = before + after;
    if after.len() == 0 {
        assert(with.drop_last() =~= without);
        assert(without =~= before);
    } else {
        law_other_entries_are_passed_over(before, entry, after.drop_last());
        assert(with.drop_last() =~= before.push(entry) + after.drop_last());
        assert(without.drop_last() =~= before + after.drop_last());
    }
}

/// A list of objects that all have a key declares one header for each, in order,
/// repeated ones too. A value that is missing is empty.
pub proof fn law_list_headers_keep_their_order(items: Seq<json::JsonView>, i: int)
    requires
        forall|k: int|
            0 <= k < items.len() ==> (json::text_member(#[trigger] items[k], "key"@) matches Some(s)
                && s.len() > 0),
    ensures
        list_headers(items).len() == items.len(),
        0 <= i < items.len() ==> {
            &&& list_headers(items)[i].0 == json::text_member(items[i], "key"@)->0
            &&& json::text_member(items[i], "value"@) matches Some(v) ==> list_headers(items)[i].1
                == v
            &&& json::text_member(items[i], "value"@) is None ==> list_headers(items)[i].1.len()
                == 0
        },
    decreases items.len(),
{
    if items.len() > 0 {
        let front = items.drop_last();
        assert forall|k: int| 0 <= k < front.len() implies (json::text_member(
            #[trigger] front[k],
            "key"@,
        ) matches Some(s) && s.len() > 0) by {
            assert(front[k] == items[k]);
        }
        law_list_headers_keep_their_order(front, i);
        let last = items[items.len() - 1];
        assert(json::text_member(last, "key"@) is Some);
    }
}

/// An object without a key changes nothing.
pub proof fn law_items_without_a_key_are_passed_over(
    before: Seq<json::JsonView>,
    item: json::JsonView,
    after: Seq<json::JsonView>,
)
    requires
        !(json::text_member(item, "key"@) matches Some(s) && s.len() > 0),
    ensures
        list_headers(before.push(item) + after) == list_headers(before + after),
    decreases after.len(),
{
    let with = before.push(item) + after;
    let without = before + after;
    if after.len() == 0 {
        assert(with.drop_last() =~= without);
        assert(without =~= before);
    } else {
        law_items_without_a_key_are_passed_over(before, item, after.drop_last());
        assert(with.drop_last() =~= before.push(item) + after.drop_last());
        assert(without.drop_last() =~= before + after.drop_last());
    }
}

/// Only an object, or a list of objects, declares headers, and a text that is
/// neither declares none.
pub proof fn law_what_declares_headers(json: Seq<char>, doc: Option<json::JsonView>)
    ensures
        doc is None ==> declared_headers(json, doc).len() == 0,
        doc is Some && !(doc->0.node is Object) && !(doc->0.node is Array) ==> declared_headers(
            json,
            doc,
        ).len() == 0,
        doc matches Some(d) && (d.node matches json::NodeView::Array(items) && exists|i: int|
            0 <= i < items.len() && !((#[trigger] items[i]).node is Object)) ==> declared_headers(
            json,
            doc,
        ).len() == 0,
{
}

/// The headers of an object are read where the text begins as an object does, and
/// those of a list of objects where it begins as a list does.
pub proof fn law_objects_and_lists_declare_headers(json: Seq<char>, doc: json::JsonView)
    requires
        text::trim_start(json).len() > 0,
    ensures
        text::trim_start(json)[0] == '{' && doc.node is Object ==> declared_headers(json, Some(doc))
            == object_headers(doc.node->Object_0),
        text::trim_start(json)[0] == '[' && doc.node is Array && (forall|i: int|
            0 <= i < doc.node->Array_0.len() ==> (#[trigger] doc.node->Array_0[i]).node is Object)
            ==> declared_headers(json, Some(doc)) == list_headers(doc.node->Array_0),
{
}

/// A header with a valid name and value is added to a handshake, under its name in
/// lower case, unless a later one has the same name.
pub proof fn law_valid_headers_are_added(headers: Seq<(Seq<char>, Seq<char>)>, i: int)
    requires
        0 <= i < headers.len(),
        is_header_name(headers[i].0),
        is_header_value(headers[i].1),
        forall|j: int|
            i < j < headers.len() ==> text::lower((#[trigger] headers[j]).0) != text::lower(
                headers[i].0,
            ) || !is_header_name(headers[j].0) || !is_header_value(headers[j].1),
    ensures
        handshake_headers(headers).contains_key(text::lower(headers[i].0)),
        handshake_headers(headers)[text::lower(headers[i].0)] == headers[i].1,
    decreases headers.len(),
{
    if i < headers.len() - 1 {
        let front = headers.drop_last();
        assert(front[i] == headers[i]);
        assert forall|j: int| i < j < front.len() implies text::lower((#[trigger] front[j]).0)
            != text::lower(front[i].0) || !is_header_name(front[j].0) || !is_header_value(
            front[j].1,
        ) by {
            assert(front[j] == headers[j]);
        }
        law_valid_headers_are_added(front, i);
        assert(headers[headers.len() - 1] == headers.last());
    }
}

/// Only valid headers that the script declares are added to a handshake.
pub proof fn law_no_header_is_made_up(headers: Seq<(Seq<char>, Seq<char>)>, name: Seq<char>)
    requires
        handshake_headers(headers).contains_key(name),
    ensures
        exists|i: int|
            0 <= i < headers.len() && text::lower((#[trigger] headers[i]).0) == name
                && is_header_name(headers[i].0) && is_header_value(headers[i].1),
    decreases headers.len(),
{
    if headers.len() > 0 {
        let front = headers.drop_last();
        let last = headers[headers.len() - 1];
        if !(text::lower(last.0) == name && is_header_name(last.0) && is_header_value(last.1)) {
            law_no_header_is_made_up(front, name);
            let i = choose|i: int|
                0 <= i < front.len() && text::lower((#[trigger] front[i]).0) == name
                    && is_header_name(front[i].0) && is_header_value(front[i].1);
            assert(front[i] == headers[i]);
        }
    }
}

/// A header name is one character of a token or more, up to 65535 of them: letters,
/// digits, and fifteen marks. It holds no space, no separator and nothing outside
/// ASCII.
pub proof fn law_header_names(s: Seq<char>, i: int)
    requires
        0 <= i < s.len(),
    ensures
        is_header_name(s) ==> '!' <= s[i] <= '~' && s.len() <= 65535,
        is_header_name(s) ==> s[i] != '"' && s[i] != '(' && s[i] != ')' && s[i] != ',' && s[i]
            != '/' && s[i] != ':' && s[i] != ';' && s[i] != '<' && s[i] != '=' && s[i] != '>'
            && s[i] != '?' && s[i] != '@' && s[i] != '[' && s[i] != '\\' && s[i] != ']' && s[i]
            != '{' && s[i] != '}',
        s.len() <= 65535 && (forall|k: int|
            0 <= k < s.len() ==> '!' <= #[trigger] s[k] <= '~' && s[k] != '"' && s[k] != '('
                && s[k] != ')' && s[k] != ',' && s[k] != '/' && s[k] != ':' && s[k] != ';' && s[k]
                != '<' && s[k] != '=' && s[k] != '>' && s[k] != '?' && s[k] != '@' && s[k] != '['
                && s[k] != '\\' && s[k] != ']' && s[k] != '{' && s[k] != '}') ==> is_header_name(s),
        !is_header_name(Seq::empty()),
{
}

/// A header value holds no control character but the tabulator, and anything else.
pub proof fn law_header_values_hold_no_controls(s: Seq<char>, i: int)
    requires
        0 <= i < s.len(),
    ensures
        s[i] == '\n' || s[i] == '\r' || s[i] == '\0' || s[i] == '\u{7f}' ==> !is_header_value(s),
        s[i] < ' ' && s[i] != '\t' ==> !is_header_value(s),
        (forall|k: int|
            0 <= k < s.len() ==> #[trigger] s[k] == '\t' || (s[k] >= ' ' && s[k] != '\u{7f}'))
            ==> is_header_value(s),
{
    lemma_number_of_a_character(s[i]);
    if forall|k: int|
        0 <= k < s.len() ==> #[trigger] s[k] == '\t' || (s[k] >= ' ' && s[k] != '\u{7f}') {
        assert forall|k: int| 0 <= k < s.len() implies ((#[trigger] s[k]) as u32 >= 32 && s[k] as u32
            != 127) || s[k] as u32 == 9 by {
            lemma_number_of_a_character(s[k]);
        }
    }
}

proof fn lemma_number_of_a_character(c: char)
    ensures
        c >= ' ' <==> c as u32 >= 32,
        c == '\t' <==> c as u32 == 9,
        c == '\u{7f}' <==> c as u32 == 127,
        c == '\n' <==> c as u32 == 10,
        c == '\r' <==> c as u32 == 13,
        c == '\0' <==> c as u32 == 0,
{
}

} // verus!
