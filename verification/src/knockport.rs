//! KnockPort collections.
//!
//! A collection is a directory: `knockport.yaml` with its name and order, and the
//! tree of its requests under `requests/`, where each folder may have a
//! `folder.yaml` of its own. The host reads the directory into a [`Collection`].
//!
//! The order lists file names. What it does not list follows, sorted: a file that
//! someone forgot to list is still a request. What it lists and the directory does
//! not have is noted. A request without a name is named after its file.

use crate::encoding;
use crate::headers;
use crate::http;
use crate::http::Body;
use crate::json;
use crate::json::Json;
use crate::paths;
use crate::scenario;
use crate::scenario::{SavedRequest, Scenario, ScenarioInfo, ScenarioItem};
use crate::string_map;
use crate::string_map::StringMap;
use crate::text;
use vstd::prelude::*;
use vstd::string::*;
use vstd::utf8::*;

verus! {

/// Reads KnockPort collections.
#[derive(Debug, Clone, Copy)]
pub struct KnockPortInputAdapter;

/// A directory under `requests/`.
#[derive(Debug)]
pub struct Folder {
    /// The text of its `folder.yaml`, where that can be read.
    pub manifest: Option<String>,
    /// What it holds, or why that cannot be read.
    pub entries: Result<Vec<Entry>, String>,
}

/// An entry of a directory.
#[derive(Debug)]
pub struct Entry {
    pub name: String,
    pub node: Node,
}

#[derive(Debug)]
pub enum Node {
    Folder(Folder),
    /// The text of a file, or why it cannot be read.
    File(Result<String, String>),
}

/// A collection on disk.
#[derive(Debug)]
pub struct Collection {
    /// The path of its directory.
    pub root: String,
    /// The text of its `knockport.yaml`, or why that cannot be read.
    pub manifest: Result<String, String>,
    /// Its `requests/`, where there is one.
    pub requests: Option<Folder>,
}

// ── fields ──

/// The strings of a list; none where the member is no list.
pub open spec fn string_items(items: Seq<json::JsonView>) -> Seq<Seq<char>>
    decreases items.len(),
{
    if items.len() == 0 {
        Seq::empty()
    } else {
        let before = string_items(items.drop_last());
        match json::as_text(Some(items.last())) {
            Some(s) => before.push(s),
            None => before,
        }
    }
}

pub open spec fn string_list(doc: json::JsonView, key: Seq<char>) -> Seq<Seq<char>> {
    match json::as_array(json::member(doc, key)) {
        Some(items) => string_items(items),
        None => Seq::empty(),
    }
}

/// The string under a key.
pub fn str_field<'a>(doc: &'a Json, key: &str) -> (r: Option<&'a str>)
    ensures
        json::opt_view(r) == json::text_member(doc@, key@),
{
    doc.text_of(key)
}

/// The strings of the list under a key.
pub fn str_list(doc: &Json, key: &str) -> (r: Vec<String>)
    ensures
        text::views(r@) == string_list(doc@, key@),
{
    let mut r: Vec<String> = Vec::new();
    assert(text::views(r@) =~= Seq::empty());
    if let Some(member) = doc.get(key) {
        if let Some(items) = member.as_array() {
            let ghost all = json::items_view(items@);
            let mut i: usize = 0;
            while i < items.len()
                invariant
                    i <= items@.len(),
                    all == json::items_view(items@),
                    text::views(r@) == string_items(all.take(i as int)),
                decreases items@.len() - i,
            {
                let ghost before = r@;
                assert(all.take(i + 1).drop_last() =~= all.take(i as int));
                if let Some(s) = items[i].as_str() {
                    r.push(s.to_owned());
                    assert(text::views(r@) =~= text::views(before).push(s@));
                }
                i += 1;
            }
            assert(all.take(items@.len() as int) =~= all);
        }
    }
    r
}

/// The pair of a row with a key and a value. A row that is turned off has none.
pub open spec fn row_pair(row: json::JsonView) -> Option<(Seq<char>, Seq<char>)> {
    if json::as_bool(json::member(row, "enabled"@)) == Some(false) {
        None
    } else {
        match json::text_member(row, "key"@) {
            Some(key) => Some((key, headers::text_or_empty(json::text_member(row, "value"@)))),
            None => None,
        }
    }
}

/// The pairs of a list of rows.
pub open spec fn row_pairs(rows: Seq<json::JsonView>) -> Seq<(Seq<char>, Seq<char>)>
    decreases rows.len(),
{
    if rows.len() == 0 {
        Seq::empty()
    } else {
        let before = row_pairs(rows.drop_last());
        match row_pair(rows.last()) {
            Some(p) => before.push(p),
            None => before,
        }
    }
}

pub open spec fn member_pairs(doc: json::JsonView, field: Seq<char>) -> Seq<
    (Seq<char>, Seq<char>),
> {
    match json::as_array(json::member(doc, field)) {
        Some(rows) => row_pairs(rows),
        None => Seq::empty(),
    }
}

/// The map of a list of pairs. A later pair wins.
pub open spec fn pair_map(pairs: Seq<(Seq<char>, Seq<char>)>) -> Map<Seq<char>, Seq<char>>
    decreases pairs.len(),
{
    if pairs.len() == 0 {
        Map::empty()
    } else {
        pair_map(pairs.drop_last()).insert(pairs.last().0, pairs.last().1)
    }
}

fn rows_to_pairs(rows: &Vec<Json>) -> (r: Vec<(String, String)>)
    ensures
        headers::pair_views(r@) == row_pairs(json::items_view(rows@)),
{
    let ghost all = json::items_view(rows@);
    let mut r: Vec<(String, String)> = Vec::new();
    let mut i: usize = 0;
    assert(headers::pair_views(r@) =~= Seq::empty());
    while i < rows.len()
        invariant
            i <= rows@.len(),
            all == json::items_view(rows@),
            headers::pair_views(r@) == row_pairs(all.take(i as int)),
        decreases rows@.len() - i,
    {
        let ghost before = r@;
        assert(all.take(i + 1).drop_last() =~= all.take(i as int));
        assert(all.take(i + 1).last() == rows@[i as int]@);
        let row = &rows[i];
        let off = match row.get("enabled") {
            Some(v) => match v.as_bool() {
                Some(b) => !b,
                None => false,
            },
            None => false,
        };
        if !off {
            if let Some(key) = row.text_of("key") {
                let value = match row.text_of("value") {
                    Some(v) => v.to_owned(),
                    None => String::new(),
                };
                r.push((key.to_owned(), value));
                assert(headers::pair_views(r@) =~= headers::pair_views(before).push(
                    row_pair(row@)->0,
                ));
            }
        }
        i += 1;
    }
    assert(all.take(rows@.len() as int) =~= all);
    r
}

/// The pairs of the rows under a field.
pub fn pairs(doc: &Json, field: &str) -> (r: Vec<(String, String)>)
    ensures
        headers::pair_views(r@) == member_pairs(doc@, field@),
{
    if let Some(member) = doc.get(field) {
        if let Some(rows) = member.as_array() {
            return rows_to_pairs(rows);
        }
    }
    let r: Vec<(String, String)> = Vec::new();
    assert(headers::pair_views(r@) =~= Seq::empty());
    r
}

fn to_map(pairs: &Vec<(String, String)>) -> (r: StringMap<String>)
    ensures
        string_map::texts(r@) == pair_map(headers::pair_views(pairs@)),
{
    let ghost all = headers::pair_views(pairs@);
    let mut r: StringMap<String> = StringMap::new();
    let mut i: usize = 0;
    assert(string_map::texts(r@) =~= Map::empty());
    while i < pairs.len()
        invariant
            i <= pairs@.len(),
            all == headers::pair_views(pairs@),
            string_map::texts(r@) == pair_map(all.take(i as int)),
        decreases pairs@.len() - i,
    {
        assert(all.take(i + 1).drop_last() =~= all.take(i as int));
        r.set(pairs[i].0.as_str(), pairs[i].1.as_str());
        i += 1;
    }
    assert(all.take(pairs@.len() as int) =~= all);
    r
}

/// The body that a request declares. A file is not read, as it may lie outside of
/// the collection; it is noted.
pub open spec fn declared_body(doc: json::JsonView) -> Option<http::BodyView> {
    match json::member(doc, "body"@) {
        Some(body) => {
            let kind = headers::text_or_empty(json::text_member(body, "type"@));
            if kind == "json"@ || kind == "raw"@ || kind == "text"@ || kind == "xml"@ || kind
                == "graphql"@ {
                match json::text_member(body, "raw"@) {
                    Some(s) => Some(http::BodyView::Raw(s)),
                    None => None,
                }
            } else if kind == "form-urlencoded"@ || kind == "multipart-form"@ {
                match json::as_array(json::member(body, "formData"@)) {
                    Some(rows) => Some(http::BodyView::UrlEncoded(pair_map(row_pairs(rows)))),
                    None => None,
                }
            } else {
                None
            }
        },
        None => None,
    }
}

/// The body that a request declares.
pub fn body_of(doc: &Json) -> (r: Option<Body>)
    ensures
        http::opt_body(r) == declared_body(doc@),
{
    let body = match doc.get("body") {
        Some(b) => b,
        None => {
            return None;
        },
    };
    let kind = match body.text_of("type") {
        Some(k) => k.to_owned(),
        None => String::new(),
    };
    let k = kind.as_str();
    if text::same_text(k, "json") || text::same_text(k, "raw") || text::same_text(k, "text")
        || text::same_text(k, "xml") || text::same_text(k, "graphql") {
        match body.text_of("raw") {
            Some(s) => Some(Body::Raw(s.to_owned())),
            None => None,
        }
    } else if text::same_text(k, "form-urlencoded") || text::same_text(k, "multipart-form") {
        if let Some(member) = body.get("formData") {
            if let Some(rows) = member.as_array() {
                let pairs = rows_to_pairs(rows);
                return Some(Body::UrlEncoded(to_map(&pairs)));
            }
        }
        None
    } else {
        None
    }
}

/// The method that a text names, in any case and with space around it.
pub open spec fn named_method(s: Seq<char>) -> Option<Seq<char>> {
    let m = text::upper(text::trim(s));
    if m == "GET"@ || m == "POST"@ || m == "PUT"@ || m == "PATCH"@ || m == "DELETE"@ || m == "HEAD"@
        || m == "OPTIONS"@ {
        Some(m)
    } else {
        None
    }
}

/// The method that a text names.
pub fn parse_method(s: &str) -> (r: Option<String>)
    ensures
        text::opt_text(r) == named_method(s@),
{
    let trimmed = text::trimmed(s);
    let upper = text::uppered(trimmed.as_str());
    let m = upper.as_str();
    if text::same_text(m, "GET") || text::same_text(m, "POST") || text::same_text(m, "PUT")
        || text::same_text(m, "PATCH") || text::same_text(m, "DELETE") || text::same_text(m, "HEAD")
        || text::same_text(m, "OPTIONS") {
        Some(upper)
    } else {
        None
    }
}

// ── requests ──

/// What a document gives: an item or none, with what is to be noted; or an error.
pub enum ReadView {
    Item(Option<scenario::ItemView>, Seq<Seq<char>>),
    Error(Seq<char>),
}

/// What a request document could not bring across.
pub open spec fn request_notes(doc: json::JsonView, rel: Seq<char>) -> Seq<Seq<char>> {
    let scripts = if json::member(doc, "prerequest"@) is Some || json::member(
        doc,
        "test"@,
    ) is Some {
        seq![
            rel
                + ": scripts are not imported — tropel's script realm is the pm/k6 surface and running a KnockPort script there would not be the same script"@,
        ]
    } else {
        Seq::empty()
    };
    let assertions = if json::member(doc, "assertions"@) is Some {
        seq![rel + ": assertions are not imported"@]
    } else {
        Seq::empty()
    };
    let file = if has_binary_body(doc) {
        seq![rel + ": binary bodies are not imported"@]
    } else {
        Seq::empty()
    };
    scripts + assertions + file
}

/// A request declares a body that is a file.
pub open spec fn has_binary_body(doc: json::JsonView) -> bool {
    match json::member(doc, "body"@) {
        Some(body) => json::text_member(body, "type"@) == Some("binary"@),
        None => false,
    }
}

/// What a request document gives. One without an address is no request, and is
/// noted.
pub open spec fn read_document(doc: json::JsonView, path: Seq<char>, rel: Seq<char>) -> ReadView {
    match json::text_member(doc, "url"@) {
        None => ReadView::Item(None, seq![rel + ": no url, skipped"@]),
        Some(url) => {
            let method_text = match json::text_member(doc, "method"@) {
                Some(m) => m,
                None => "GET"@,
            };
            let stem = match paths::file_stem(path) {
                Some(s) => s,
                None => "request"@,
            };
            match named_method(method_text) {
                None => ReadView::Error(rel + ": \""@ + method_text + "\" is not an HTTP method"@),
                Some(method) => ReadView::Item(
                    Some(
                        scenario::request_item(
                            match json::text_member(doc, "name"@) {
                                Some(n) => n,
                                None => stem,
                            },
                            scenario::SavedView {
                                url,
                                method,
                                headers: member_pairs(doc, "headers"@),
                                query_params: pair_map(member_pairs(doc, "params"@)),
                                body: declared_body(doc),
                            },
                        ),
                    ),
                    request_notes(doc, rel),
                ),
            }
        },
    }
}

/// The error of a file that cannot be read.
pub open spec fn cannot_read(path: Seq<char>, cause: Seq<char>) -> Seq<char> {
    "cannot read "@ + path + ": "@ + cause
}

/// The error of a file that is not YAML.
pub open spec fn not_yaml(path: Seq<char>, cause: Seq<char>) -> Seq<char> {
    path + " is not valid YAML: "@ + cause
}

/// What the file of a request gives.
pub open spec fn read_file(content: Result<String, String>, path: Seq<char>, rel: Seq<char>) -> ReadView {
    match content {
        Err(e) => ReadView::Error(cannot_read(path, e@)),
        Ok(s) => match json::yaml_document(s@) {
            Err(e) => ReadView::Error(not_yaml(path, e)),
            Ok(doc) => read_document(doc, path, rel),
        },
    }
}

/// What was read is what `want` says, and the notes grew by those of it.
pub open spec fn gives(
    r: Result<Option<ScenarioItem>, String>,
    before: Seq<Seq<char>>,
    after: Seq<Seq<char>>,
    want: ReadView,
) -> bool {
    match (r, want) {
        (Ok(Some(item)), ReadView::Item(Some(w), notes)) => item@ == w && after == before + notes,
        (Ok(None), ReadView::Item(None, notes)) => after == before + notes,
        (Err(e), ReadView::Error(w)) => e@ == w,
        _ => false,
    }
}

fn push_note(notes: &mut Vec<String>, rel: &str, rest: &str)
    ensures
        text::views(final(notes)@) == text::views(old(notes)@).push(rel@ + rest@),
{
    let ghost before = notes@;
    let note = text::cat(rel, rest);
    notes.push(note);
    assert(text::views(notes@) =~= text::views(before).push(note@));
}

fn unreadable(path: &str, cause: &str) -> (r: String)
    ensures
        r@ == cannot_read(path@, cause@),
{
    let mut m = text::cat("cannot read ", path);
    m.append(": ");
    m.append(cause);
    m
}

fn parse_yaml(s: &str, path: &str) -> (r: Result<Json, String>)
    ensures
        match r {
            Ok(doc) => json::yaml_document(s@) == Ok::<json::JsonView, Seq<char>>(doc@),
            Err(m) => json::yaml_document(s@) is Err && m@ == not_yaml(
                path@,
                json::yaml_document(s@)->Err_0,
            ),
        },
{
    match Json::parse_yaml(s) {
        Ok(doc) => Ok(doc),
        Err(e) => {
            let mut m = text::cat(path, " is not valid YAML: ");
            m.append(e.as_str());
            Err(m)
        },
    }
}

fn is_binary_body(doc: &Json) -> (r: bool)
    ensures
        r == has_binary_body(doc@),
{
    if let Some(body) = doc.get("body") {
        if let Some(kind) = body.text_of("type") {
            return text::same_text(kind, "binary");
        }
    }
    false
}

/// Reads a request document.
pub fn read_request_document(doc: &Json, path: &str, rel: &str, notes: &mut Vec<String>) -> (r:
    Result<Option<ScenarioItem>, String>)
    ensures
        gives(
            r,
            text::views(old(notes)@),
            text::views(final(notes)@),
            read_document(doc@, path@, rel@),
        ),
{
    let ghost start = text::views(notes@);
    let url = match str_field(doc, "url") {
        Some(u) => u,
        None => {
            push_note(notes, rel, ": no url, skipped");
            let r: Result<Option<ScenarioItem>, String> = Ok(None);
            proof {
                let added = seq![rel@ + ": no url, skipped"@];
                assert(text::views(notes@) =~= start + added);
            }
            return r;
        },
    };
    let method_text = match str_field(doc, "method") {
        Some(m) => m,
        None => "GET",
    };
    let method = match parse_method(method_text) {
        Some(m) => m,
        None => {
            let mut m = text::cat(rel, ": \"");
            m.append(method_text);
            m.append("\" is not an HTTP method");
            let r: Result<Option<ScenarioItem>, String> = Err(m);
            return r;
        },
    };
    let stem = match paths::file_stem_of(path) {
        Some(s) => s,
        None => "request".to_owned(),
    };
    if doc.get("prerequest").is_some() || doc.get("test").is_some() {
        push_note(
            notes,
            rel,
            ": scripts are not imported — tropel's script realm is the pm/k6 surface and running a KnockPort script there would not be the same script",
        );
    }
    if doc.get("assertions").is_some() {
        push_note(notes, rel, ": assertions are not imported");
    }
    if is_binary_body(doc) {
        push_note(notes, rel, ": binary bodies are not imported");
    }
    let name = match str_field(doc, "name") {
        Some(n) => n.to_owned(),
        None => stem,
    };
    let params = pairs(doc, "params");
    let request = SavedRequest {
        url: url.to_owned(),
        method,
        headers: pairs(doc, "headers"),
        query_params: to_map(&params),
        body: body_of(doc),
    };
    let r: Result<Option<ScenarioItem>, String> = Ok(
        Some(ScenarioItem::of_request(name, request)),
    );
    proof {
        let added = request_notes(doc@, rel@);
        assert(text::views(notes@) =~= start + added);
    }
    r
}

/// Reads the file of a request.
pub fn read_request(content: &Result<String, String>, path: &str, rel: &str, notes: &mut Vec<
    String,
>) -> (r: Result<Option<ScenarioItem>, String>)
    ensures
        gives(
            r,
            text::views(old(notes)@),
            text::views(final(notes)@),
            read_file(*content, path@, rel@),
        ),
{
    match content {
        Err(e) => {
            let r: Result<Option<ScenarioItem>, String> = Err(unreadable(path, e.as_str()));
            r
        },
        Ok(s) => match parse_yaml(s.as_str(), path) {
            Err(m) => {
                let r: Result<Option<ScenarioItem>, String> = Err(m);
                r
            },
            Ok(doc) => read_request_document(&doc, path, rel, notes),
        },
    }
}

// ── the order of a folder ──

/// `a` comes before `b`, or is `b`: character by character, and the shorter one
/// first.
pub open spec fn not_after(a: Seq<char>, b: Seq<char>) -> bool
    decreases a.len(),
{
    if a.len() == 0 {
        true
    } else if b.len() == 0 {
        false
    } else if a[0] == b[0] {
        not_after(a.skip(1), b.skip(1))
    } else {
        a[0] < b[0]
    }
}

/// A sorted list with one more name.
pub open spec fn inserted(sorted: Seq<Seq<char>>, name: Seq<char>) -> Seq<Seq<char>>
    decreases sorted.len(),
{
    if sorted.len() == 0 || not_after(sorted.last(), name) {
        sorted.push(name)
    } else {
        inserted(sorted.drop_last(), name).push(sorted.last())
    }
}

/// The names, sorted.
pub open spec fn sorted(names: Seq<Seq<char>>) -> Seq<Seq<char>>
    decreases names.len(),
{
    if names.len() == 0 {
        names
    } else {
        inserted(sorted(names.drop_last()), names.last())
    }
}

/// An entry that is a folder or a YAML file, and not the manifest of the folder.
pub open spec fn is_child(entry: Entry) -> bool {
    &&& entry.name@ != "folder.yaml"@
    &&& entry.node is Folder || text::ends_with(entry.name@, ".yaml"@) || text::ends_with(
        entry.name@,
        ".yml"@,
    )
}

/// The names of the children among a list of entries.
pub open spec fn child_names(entries: Seq<Entry>) -> Seq<Seq<char>>
    decreases entries.len(),
{
    if entries.len() == 0 {
        Seq::empty()
    } else {
        let before = child_names(entries.drop_last());
        if is_child(entries.last()) {
            before.push(entries.last().name@)
        } else {
            before
        }
    }
}

/// The names that the order lists and the folder has.
pub open spec fn listed(order: Seq<Seq<char>>, on_disk: Seq<Seq<char>>) -> Seq<Seq<char>>
    decreases order.len(),
{
    if order.len() == 0 {
        Seq::empty()
    } else {
        let before = listed(order.drop_last(), on_disk);
        if on_disk.contains(order.last()) {
            before.push(order.last())
        } else {
            before
        }
    }
}

/// What is noted of the names that the order lists and the folder does not have.
pub open spec fn order_notes(order: Seq<Seq<char>>, on_disk: Seq<Seq<char>>, rel: Seq<char>) -> Seq<
    Seq<char>,
>
    decreases order.len(),
{
    if order.len() == 0 {
        Seq::empty()
    } else {
        let before = order_notes(order.drop_last(), on_disk, rel);
        if on_disk.contains(order.last()) {
            before
        } else {
            before.push(
                rel + (": order lists \""@ + order.last() + "\", which is not on disk"@),
            )
        }
    }
}

/// A list followed by the names that it does not hold.
pub open spec fn completed(start: Seq<Seq<char>>, on_disk: Seq<Seq<char>>) -> Seq<Seq<char>>
    decreases on_disk.len(),
{
    if on_disk.len() == 0 {
        start
    } else {
        let before = completed(start, on_disk.drop_last());
        if before.contains(on_disk.last()) {
            before
        } else {
            before.push(on_disk.last())
        }
    }
}

/// The children of a folder in the order in which they are read.
pub open spec fn sequence(order: Seq<Seq<char>>, entries: Seq<Entry>) -> Seq<Seq<char>> {
    let on_disk = sorted(child_names(entries));
    completed(listed(order, on_disk), on_disk)
}

/// Whether `a` comes before `b`, or is `b`.
fn comes_first(a: &str, b: &str) -> (r: bool)
    ensures
        r == not_after(a@, b@),
{
    let x = text::chars_of(a);
    let y = text::chars_of(b);
    let mut i: usize = 0;
    assert(x@.skip(0) =~= x@);
    assert(y@.skip(0) =~= y@);
    while i < x.len() && i < y.len()
        invariant
            x@ == a@,
            y@ == b@,
            i <= x@.len(),
            i <= y@.len(),
            not_after(a@, b@) == not_after(x@.skip(i as int), y@.skip(i as int)),
        decreases x@.len() - i,
    {
        let ghost p = x@.skip(i as int);
        let ghost q = y@.skip(i as int);
        assert(p[0] == x@[i as int] && q[0] == y@[i as int]);
        assert(p.skip(1) =~= x@.skip(i + 1));
        assert(q.skip(1) =~= y@.skip(i + 1));
        let c: char = x[i];
        let d: char = y[i];
        if c != d {
            return c < d;
        }
        i += 1;
    }
    i == x.len()
}

/// Adds a name to a sorted list.
fn insert_name(names: &mut Vec<String>, name: String)
    ensures
        text::views(final(names)@) == inserted(text::views(old(names)@), name@),
    decreases old(names)@.len(),
{
    let n: usize = names.len();
    let ghost all = text::views(names@);
    if n == 0 || comes_first(names[n - 1].as_str(), name.as_str()) {
        names.push(name);
        assert(text::views(names@) =~= all.push(name@));
        return;
    }
    let last = names.pop().unwrap();
    assert(text::views(names@) =~= all.drop_last());
    assert(all.last() == last@);
    insert_name(names, name);
    let ghost grown = text::views(names@);
    names.push(last);
    assert(text::views(names@) =~= grown.push(last@));
}

fn holds(names: &Vec<String>, name: &str) -> (r: bool)
    ensures
        r == text::views(names@).contains(name@),
{
    let ghost all = text::views(names@);
    let mut i: usize = 0;
    while i < names.len()
        invariant
            i <= names@.len(),
            all == text::views(names@),
            forall|k: int| 0 <= k < i ==> #[trigger] all[k] != name@,
        decreases names@.len() - i,
    {
        if text::same_text(names[i].as_str(), name) {
            assert(all[i as int] == name@);
            return true;
        }
        i += 1;
    }
    false
}

fn children(entries: &Vec<Entry>) -> (r: Vec<String>)
    ensures
        text::views(r@) == sorted(child_names(entries@)),
{
    let mut r: Vec<String> = Vec::new();
    let mut i: usize = 0;
    assert(text::views(r@) =~= Seq::empty());
    assert(sorted(Seq::empty()) =~= Seq::<Seq<char>>::empty());
    while i < entries.len()
        invariant
            i <= entries@.len(),
            text::views(r@) == sorted(child_names(entries@.take(i as int))),
        decreases entries@.len() - i,
    {
        assert(entries@.take(i + 1).drop_last() =~= entries@.take(i as int));
        let name = entries[i].name.as_str();
        let folder = match &entries[i].node {
            Node::Folder(_) => true,
            Node::File(_) => false,
        };
        if !text::same_text(name, "folder.yaml") && (folder || text::has_suffix(name, ".yaml")
            || text::has_suffix(name, ".yml")) {
            let ghost before = child_names(entries@.take(i as int));
            insert_name(&mut r, name.to_owned());
            assert(before.push(name@).drop_last() =~= before);
            assert(child_names(entries@.take(i + 1)) =~= before.push(name@));
        }
        i += 1;
    }
    assert(entries@.take(entries@.len() as int) =~= entries@);
    r
}

fn arrange(order: &Vec<String>, entries: &Vec<Entry>, rel: &str, notes: &mut Vec<String>) -> (r: Vec<
    String,
>)
    ensures
        text::views(r@) == sequence(text::views(order@), entries@),
        text::views(final(notes)@) == text::views(old(notes)@) + order_notes(
            text::views(order@),
            sorted(child_names(entries@)),
            rel@,
        ),
{
    let on_disk = children(entries);
    let ghost disk = text::views(on_disk@);
    let ghost want = text::views(order@);
    let ghost start = text::views(notes@);
    let mut r: Vec<String> = Vec::new();
    let mut i: usize = 0;
    assert(text::views(r@) =~= Seq::empty());
    assert(start + Seq::<Seq<char>>::empty() =~= start);
    while i < order.len()
        invariant
            i <= order@.len(),
            want == text::views(order@),
            disk == text::views(on_disk@),
            text::views(r@) == listed(want.take(i as int), disk),
            text::views(notes@) == start + order_notes(want.take(i as int), disk, rel@),
        decreases order@.len() - i,
    {
        let name = order[i].as_str();
        assert(want.take(i + 1).drop_last() =~= want.take(i as int));
        assert(want.take(i + 1).last() == name@);
        if holds(&on_disk, name) {
            let ghost before = text::views(r@);
            r.push(name.to_owned());
            assert(text::views(r@) =~= before.push(name@));
        } else {
            let mut rest = text::cat(": order lists \"", name);
            rest.append("\", which is not on disk");
            push_note(notes, rel, rest.as_str());
            assert(text::views(notes@) =~= start + order_notes(want.take(i + 1), disk, rel@));
        }
        i += 1;
    }
    assert(want.take(order@.len() as int) =~= want);
    let ghost first = text::views(r@);
    let mut k: usize = 0;
    while k < on_disk.len()
        invariant
            k <= on_disk@.len(),
            disk == text::views(on_disk@),
            text::views(r@) == completed(first, disk.take(k as int)),
        decreases on_disk@.len() - k,
    {
        let name = on_disk[k].as_str();
        assert(disk.take(k + 1).drop_last() =~= disk.take(k as int));
        assert(disk.take(k + 1).last() == name@);
        if !holds(&r, name) {
            let ghost before = text::views(r@);
            r.push(name.to_owned());
            assert(text::views(r@) =~= before.push(name@));
        }
        k += 1;
    }
    assert(disk.take(on_disk@.len() as int) =~= disk);
    r
}

// ── folders ──

/// What a folder gives: its items and what is to be noted, or an error.
pub enum FolderView {
    Items(Seq<scenario::ItemView>, Seq<Seq<char>>),
    Error(Seq<char>),
}

/// The place of the entry with a name.
pub open spec fn place_of(entries: Seq<Entry>, name: Seq<char>) -> Option<int>
    decreases entries.len(),
{
    if entries.len() == 0 {
        None
    } else if entries.last().name@ == name {
        Some(entries.len() - 1)
    } else {
        place_of(entries.drop_last(), name)
    }
}

/// The document of a folder that has no manifest.
pub open spec fn no_manifest() -> json::JsonView {
    json::JsonView { text: "null"@, node: json::NodeView::Null }
}

/// What a folder gives. `manifest` is the document that owns its order.
pub open spec fn folder_items(
    folder: Folder,
    manifest: json::JsonView,
    dir: Seq<char>,
    rel: Seq<char>,
) -> FolderView
    decreases folder, 0nat,
{
    match folder.entries {
        Err(e) => FolderView::Error(cannot_read(dir, e@)),
        Ok(entries) => {
            let order = string_list(manifest, "order"@);
            let found = order_notes(order, sorted(child_names(entries@)), rel);
            match named_items(entries@, sequence(order, entries@), dir, rel) {
                FolderView::Items(items, notes) => FolderView::Items(items, found + notes),
                FolderView::Error(e) => FolderView::Error(e),
            }
        },
    }
}

/// What the entries with the given names give, in that order.
pub open spec fn named_items(
    entries: Seq<Entry>,
    names: Seq<Seq<char>>,
    dir: Seq<char>,
    rel: Seq<char>,
) -> FolderView
    decreases entries, names.len(),
{
    if names.len() == 0 {
        FolderView::Items(Seq::empty(), Seq::empty())
    } else {
        match named_items(entries, names.drop_last(), dir, rel) {
            FolderView::Error(e) => FolderView::Error(e),
            FolderView::Items(items, notes) => match place_of(entries, names.last()) {
                Some(i) => if 0 <= i < entries.len() {
                    match entry_item(entries[i], dir, rel) {
                        ReadView::Error(e) => FolderView::Error(e),
                        ReadView::Item(Some(item), more) => FolderView::Items(
                            items.push(item),
                            notes + more,
                        ),
                        ReadView::Item(None, more) => FolderView::Items(items, notes + more),
                    }
                } else {
                    FolderView::Items(items, notes)
                },
                None => FolderView::Items(items, notes),
            },
        }
    }
}

/// What an entry of a folder gives.
pub open spec fn entry_item(entry: Entry, dir: Seq<char>, rel: Seq<char>) -> ReadView
    decreases entry, 0nat,
{
    let path = paths::joined(dir, entry.name@);
    let here = paths::joined(rel, entry.name@);
    match entry.node {
        Node::File(content) => read_file(content, path, here),
        Node::Folder(folder) => match folder_manifest(folder.manifest, path) {
            Err(e) => ReadView::Error(e),
            Ok(doc) => match folder_items(folder, doc, path, here) {
                FolderView::Error(e) => ReadView::Error(e),
                FolderView::Items(items, notes) => ReadView::Item(
                    Some(
                        scenario::folder_item(
                            match json::text_member(doc, "name"@) {
                                Some(n) => n,
                                None => entry.name@,
                            },
                            items,
                        ),
                    ),
                    notes,
                ),
            },
        },
    }
}

/// The document of the manifest of a folder, or an error where it is not YAML.
pub open spec fn folder_manifest(manifest: Option<String>, path: Seq<char>) -> Result<
    json::JsonView,
    Seq<char>,
> {
    match manifest {
        None => Ok(no_manifest()),
        Some(s) => match json::yaml_document(s@) {
            Ok(doc) => Ok(doc),
            Err(e) => Err(not_yaml(paths::joined(path, "folder.yaml"@), e)),
        },
    }
}

/// What a folder was read into is what `want` says, and the notes grew by those of
/// it.
pub open spec fn yields(
    r: Result<Vec<ScenarioItem>, String>,
    before: Seq<Seq<char>>,
    after: Seq<Seq<char>>,
    want: FolderView,
) -> bool {
    match (r, want) {
        (Ok(items), FolderView::Items(w, notes)) => scenario::item_views(items@) == w && after
            == before + notes,
        (Err(e), FolderView::Error(w)) => e@ == w,
        _ => false,
    }
}

proof fn lemma_error_stays(
    entries: Seq<Entry>,
    names: Seq<Seq<char>>,
    k: int,
    dir: Seq<char>,
    rel: Seq<char>,
)
    requires
        0 <= k <= names.len(),
        named_items(entries, names.take(k), dir, rel) is Error,
    ensures
        named_items(entries, names, dir, rel) == named_items(entries, names.take(k), dir, rel),
    decreases names.len(),
{
    if k < names.len() {
        assert(names.drop_last().take(k) =~= names.take(k));
        lemma_error_stays(entries, names.drop_last(), k, dir, rel);
    } else {
        assert(names.take(k) =~= names);
    }
}

fn find_entry(entries: &Vec<Entry>, name: &str) -> (r: Option<usize>)
    ensures
        match r {
            Some(i) => i < entries@.len() && place_of(entries@, name@) == Some(i as int),
            None => place_of(entries@, name@) is None,
        },
{
    let mut i: usize = entries.len();
    assert(entries@.take(i as int) =~= entries@);
    while i > 0
        invariant
            i <= entries@.len(),
            place_of(entries@, name@) == place_of(entries@.take(i as int), name@),
        decreases i,
    {
        assert(entries@.take(i as int).drop_last() =~= entries@.take(i - 1));
        if text::same_text(entries[i - 1].name.as_str(), name) {
            return Some(i - 1);
        }
        i = i - 1;
    }
    None
}

fn manifest_of(manifest: &Option<String>, path: &str) -> (r: Result<Json, String>)
    ensures
        match r {
            Ok(doc) => folder_manifest(*manifest, path@) == Ok::<json::JsonView, Seq<char>>(doc@),
            Err(m) => folder_manifest(*manifest, path@) == Err::<json::JsonView, Seq<char>>(m@),
        },
{
    match manifest {
        None => Ok(Json::null()),
        Some(s) => {
            let file = paths::join(path, "folder.yaml");
            parse_yaml(s.as_str(), file.as_str())
        },
    }
}

/// Reads a folder. `manifest` is the document that owns its order.
pub fn read_folder(
    folder: &Folder,
    manifest: &Json,
    dir: &str,
    rel: &str,
    notes: &mut Vec<String>,
) -> (r: Result<Vec<ScenarioItem>, String>)
    ensures
        yields(
            r,
            text::views(old(notes)@),
            text::views(final(notes)@),
            folder_items(*folder, manifest@, dir@, rel@),
        ),
    decreases folder, 0nat,
{
    match &folder.entries {
        Err(e) => {
            let r: Result<Vec<ScenarioItem>, String> = Err(unreadable(dir, e.as_str()));
            r
        },
        Ok(entries) => {
            let ghost start = text::views(notes@);
            let order = str_list(manifest, "order");
            let names = arrange(&order, entries, rel, notes);
            let ghost found = order_notes(
                text::views(order@),
                sorted(child_names(entries@)),
                rel@,
            );
            let r = read_entries(entries, &names, dir, rel, notes);
            proof {
                if let FolderView::Items(_, more) = named_items(
                    entries@,
                    text::views(names@),
                    dir@,
                    rel@,
                ) {
                    assert(start + (found + more) =~= (start + found) + more);
                }
            }
            r
        },
    }
}

fn read_entries(
    entries: &Vec<Entry>,
    names: &Vec<String>,
    dir: &str,
    rel: &str,
    notes: &mut Vec<String>,
) -> (r: Result<Vec<ScenarioItem>, String>)
    ensures
        yields(
            r,
            text::views(old(notes)@),
            text::views(final(notes)@),
            named_items(entries@, text::views(names@), dir@, rel@),
        ),
    decreases entries@, 0nat,
{
    let ghost all = text::views(names@);
    let ghost start = text::views(notes@);
    let ghost mut added: Seq<Seq<char>> = Seq::empty();
    let mut items: Vec<ScenarioItem> = Vec::new();
    let mut k: usize = 0;
    assert(scenario::item_views(items@) =~= Seq::empty());
    assert(start + added =~= start);
    while k < names.len()
        invariant
            k <= names@.len(),
            all == text::views(names@),
            named_items(entries@, all.take(k as int), dir@, rel@) == FolderView::Items(
                scenario::item_views(items@),
                added,
            ),
            text::views(notes@) == start + added,
            start == text::views(old(notes)@),
        decreases names@.len() - k,
    {
        let name = names[k].as_str();
        assert(all.take(k + 1).drop_last() =~= all.take(k as int));
        assert(all.take(k + 1).last() == name@);
        if let Some(i) = find_entry(entries, name) {
            let ghost before = text::views(notes@);
            let entry = &entries[i];
            assert(entries@[i as int] == *entry);
            let one = read_entry(entry, dir, rel, notes);
            let ghost more = match entry_item(*entry, dir@, rel@) {
                ReadView::Item(_, more) => more,
                ReadView::Error(_) => Seq::empty(),
            };
            match one {
                Err(e) => {
                    let r: Result<Vec<ScenarioItem>, String> = Err(e);
                    proof {
                        lemma_error_stays(entries@, all, k + 1, dir@, rel@);
                    }
                    return r;
                },
                Ok(Some(item)) => {
                    let ghost was = scenario::item_views(items@);
                    items.push(item);
                    proof {
                        assert(scenario::item_views(items@) =~= was.push(item@));
                        assert(before + more =~= start + (added + more));
                        added = added + more;
                    }
                },
                Ok(None) => {
                    proof {
                        assert(before + more =~= start + (added + more));
                        added = added + more;
                    }
                },
            }
        }
        k += 1;
    }
    let r: Result<Vec<ScenarioItem>, String> = Ok(items);
    proof {
        assert(all.take(names@.len() as int) =~= all);
    }
    r
}

fn read_entry(entry: &Entry, dir: &str, rel: &str, notes: &mut Vec<String>) -> (r: Result<
    Option<ScenarioItem>,
    String,
>)
    ensures
        gives(
            r,
            text::views(old(notes)@),
            text::views(final(notes)@),
            entry_item(*entry, dir@, rel@),
        ),
    decreases entry, 0nat,
{
    let name = entry.name.as_str();
    let path = paths::join(dir, name);
    let here = paths::join(rel, name);
    match &entry.node {
        Node::File(content) => read_request(content, path.as_str(), here.as_str(), notes),
        Node::Folder(folder) => {
            let doc = match manifest_of(&folder.manifest, path.as_str()) {
                Ok(doc) => doc,
                Err(m) => {
                    let r: Result<Option<ScenarioItem>, String> = Err(m);
                    return r;
                },
            };
            let items = read_folder(folder, &doc, path.as_str(), here.as_str(), notes);
            match items {
                Err(e) => {
                    let r: Result<Option<ScenarioItem>, String> = Err(e);
                    r
                },
                Ok(children) => {
                    let title = match str_field(&doc, "name") {
                        Some(n) => n.to_owned(),
                        None => name.to_owned(),
                    };
                    let r: Result<Option<ScenarioItem>, String> = Ok(
                        Some(ScenarioItem::of_folder(title, children)),
                    );
                    r
                },
            }
        },
    }
}

// ── collections ──

/// The directory of a collection: the one that is named, or that of the file that
/// is named.
pub open spec fn root_of(path: Seq<char>, is_dir: bool) -> Option<Seq<char>> {
    if is_dir {
        Some(path)
    } else {
        paths::parent(path)
    }
}

/// The directory of a collection, given whether the path is that of a directory.
pub fn collection_root(path: &str, is_dir: bool) -> (r: Result<String, String>)
    ensures
        match r {
            Ok(root) => root_of(path@, is_dir) == Some(root@),
            Err(m) => root_of(path@, is_dir) is None && m@ == path@
                + " has no parent directory, so the collection root cannot be found"@,
        },
{
    if is_dir {
        return Ok(path.to_owned());
    }
    match paths::parent_of(path) {
        Some(root) => Ok(root),
        None => Err(
            text::cat(path, " has no parent directory, so the collection root cannot be found"),
        ),
    }
}

/// The name of a directory.
pub fn dir_name(path: &str) -> (r: String)
    ensures
        r@ == directory_name(path@),
{
    match paths::file_name_of(path) {
        Some(n) => n,
        None => "KnockPort collection".to_owned(),
    }
}

pub open spec fn directory_name(path: Seq<char>) -> Seq<char> {
    match paths::file_name(path) {
        Some(n) => n,
        None => "KnockPort collection"@,
    }
}

/// What a collection gives: a scenario, or an error.
pub open spec fn collection_scenario(c: Collection) -> Result<scenario::ScenarioView, Seq<char>> {
    let root = c.root@;
    let file = paths::joined(root, "knockport.yaml"@);
    match c.manifest {
        Err(e) => Err(
            cannot_read(file, e@)
                + " — a KnockPort collection root must contain knockport.yaml"@,
        ),
        Ok(s) => match json::yaml_document(s@) {
            Err(e) => Err(not_yaml(file, e)),
            Ok(doc) => document_scenario(c, doc),
        },
    }
}

/// What a collection gives, given the document of its manifest.
pub open spec fn document_scenario(c: Collection, doc: json::JsonView) -> Result<
    scenario::ScenarioView,
    Seq<char>,
> {
    let read = match c.requests {
        Some(folder) => folder_items(
            folder,
            doc,
            paths::joined(c.root@, "requests"@),
            "requests"@,
        ),
        None => FolderView::Items(
            Seq::empty(),
            seq![
                "no requests/ directory beside knockport.yaml — the collection imported with no requests"@,
            ],
        ),
    };
    match read {
        FolderView::Error(e) => Err(e),
        FolderView::Items(items, notes) => Ok(
            scenario::ScenarioView {
                info: scenario::InfoView {
                    name: match json::text_member(doc, "name"@) {
                        Some(n) => n,
                        None => directory_name(c.root@),
                    },
                    description: json::text_member(doc, "description"@),
                    schema: None,
                },
                items,
                variables: Map::empty(),
                conversion_notes: notes,
            },
        ),
    }
}

/// Reads a collection, given the document of its manifest.
pub fn read_collection_document(c: &Collection, doc: &Json) -> (r: Result<Scenario, String>)
    ensures
        match r {
            Ok(s) => document_scenario(*c, doc@) == Ok::<scenario::ScenarioView, Seq<char>>(s@),
            Err(m) => document_scenario(*c, doc@) == Err::<scenario::ScenarioView, Seq<char>>(m@),
        },
{
    let mut notes: Vec<String> = Vec::new();
    let ghost none = text::views(notes@);
    assert(none =~= Seq::empty());
    let name = match str_field(doc, "name") {
        Some(n) => n.to_owned(),
        None => dir_name(c.root.as_str()),
    };
    let description = match str_field(doc, "description") {
        Some(d) => Some(d.to_owned()),
        None => None,
    };
    let items = match &c.requests {
        Some(folder) => {
            let dir = paths::join(c.root.as_str(), "requests");
            match read_folder(folder, doc, dir.as_str(), "requests", &mut notes) {
                Ok(items) => items,
                Err(e) => {
                    return Err(e);
                },
            }
        },
        None => {
            push_note(
                &mut notes,
                "",
                "no requests/ directory beside knockport.yaml — the collection imported with no requests",
            );
            proof {
                reveal_strlit("");
                assert(""@ + "no requests/ directory beside knockport.yaml — the collection imported with no requests"@
                    =~= "no requests/ directory beside knockport.yaml — the collection imported with no requests"@);
            }
            Vec::new()
        },
    };
    proof {
        if c.requests is Some {
            if let FolderView::Items(_, added) = folder_items(
                c.requests->0,
                doc@,
                paths::joined(c.root@, "requests"@),
                "requests"@,
            ) {
                assert(none + added =~= added);
            }
        } else {
            assert(scenario::item_views(items@) =~= Seq::empty());
        }
    }
    let variables: StringMap<String> = StringMap::new();
    assert(string_map::texts(variables@) =~= Map::empty());
    Ok(
        Scenario {
            info: ScenarioInfo { name, description, schema: None },
            items,
            variables,
            conversion_notes: notes,
        },
    )
}

/// Reads a collection.
pub fn read_collection(c: &Collection) -> (r: Result<Scenario, String>)
    ensures
        match r {
            Ok(s) => collection_scenario(*c) == Ok::<scenario::ScenarioView, Seq<char>>(s@),
            Err(m) => collection_scenario(*c) == Err::<scenario::ScenarioView, Seq<char>>(m@),
        },
{
    let file = paths::join(c.root.as_str(), "knockport.yaml");
    match &c.manifest {
        Err(e) => {
            let mut m = unreadable(file.as_str(), e.as_str());
            m.append(" — a KnockPort collection root must contain knockport.yaml");
            Err(m)
        },
        Ok(s) => match parse_yaml(s.as_str(), file.as_str()) {
            Err(m) => Err(m),
            Ok(doc) => read_collection_document(c, &doc),
        },
    }
}

// ── the adapter ──

/// A document is the manifest of a collection: it has a name and an order, and
/// nothing by which the documents of other formats are known.
pub open spec fn is_manifest(doc: json::JsonView) -> bool {
    &&& doc.node is Object
    &&& json::member(doc, "openapi"@) is None
    &&& json::member(doc, "swagger"@) is None
    &&& json::member(doc, "log"@) is None
    &&& json::member(doc, "_type"@) is None
    &&& json::member(doc, "info"@) is None
    &&& json::member(doc, "items"@) is None
    &&& json::text_member(doc, "version"@) != Some("1"@)
    &&& json::member(doc, "name"@) is Some
    &&& json::as_array(json::member(doc, "order"@)) is Some
}

/// Whether a document is the manifest of a collection.
pub fn is_manifest_document(doc: &Json) -> (r: bool)
    ensures
        r == is_manifest(doc@),
{
    if doc.as_object().is_none() {
        return false;
    }
    if doc.get("openapi").is_some() || doc.get("swagger").is_some() || doc.get("log").is_some()
        || doc.get("_type").is_some() || doc.get("info").is_some() || doc.get("items").is_some() {
        return false;
    }
    if let Some(version) = str_field(doc, "version") {
        if text::same_text(version, "1") {
            return false;
        }
    }
    if doc.get("name").is_none() {
        return false;
    }
    match doc.get("order") {
        Some(order) => order.as_array().is_some(),
        None => false,
    }
}

/// The refusal to read a collection from bytes.
pub open spec fn needs_directory() -> Seq<char> {
    "a KnockPort collection is a DIRECTORY (knockport.yaml + requests/), so it cannot be read from bytes alone — point tropel at the collection directory or its knockport.yaml"@
}

impl KnockPortInputAdapter {
    pub fn id(&self) -> (r: &str)
        ensures
            r@ == "knockport"@,
    {
        "knockport"
    }

    /// Whether bytes are the manifest of a collection.
    pub fn detect(&self, bytes: &[u8]) -> (r: bool)
        ensures
            r == (valid_utf8(bytes@) && json::yaml_document(decode_utf8(bytes@)) is Ok
                && is_manifest(json::yaml_document(decode_utf8(bytes@))->Ok_0)),
    {
        match encoding::utf8_text(bytes) {
            Some(s) => match Json::parse_yaml(s) {
                Ok(doc) => is_manifest_document(&doc),
                Err(_) => false,
            },
            None => false,
        }
    }

    /// Refuses: without its directory there is no collection, and an empty
    /// scenario would look like one with nothing in it.
    pub fn parse(&self, _bytes: &[u8]) -> (r: Result<Scenario, String>)
        ensures
            r matches Err(m) && m@ == needs_directory(),
    {
        Err(
            "a KnockPort collection is a DIRECTORY (knockport.yaml + requests/), so it cannot be read from bytes alone — point tropel at the collection directory or its knockport.yaml".to_owned(),
        )
    }

    /// Reads a collection that the host found on disk.
    pub fn parse_with_path(&self, bytes: &[u8], collection: Option<&Collection>) -> (r: Result<
        Scenario,
        String,
    >)
        ensures
            match collection {
                Some(c) => match r {
                    Ok(s) => collection_scenario(*c) == Ok::<scenario::ScenarioView, Seq<char>>(s@),
                    Err(m) => collection_scenario(*c) == Err::<scenario::ScenarioView, Seq<char>>(
                        m@,
                    ),
                },
                None => r matches Err(m) && m@ == needs_directory(),
            },
    {
        match collection {
            Some(c) => read_collection(c),
            None => self.parse(bytes),
        }
    }
}

// ── laws ──

proof fn lemma_not_after_total(a: Seq<char>, b: Seq<char>)
    ensures
        not_after(a, b) || not_after(b, a),
    decreases a.len(),
{
    if a.len() > 0 && b.len() > 0 && a[0] == b[0] {
        lemma_not_after_total(a.skip(1), b.skip(1));
    }
}

proof fn lemma_not_after_transitive(a: Seq<char>, b: Seq<char>, c: Seq<char>)
    requires
        not_after(a, b),
        not_after(b, c),
    ensures
        not_after(a, c),
    decreases a.len(),
{
    if a.len() > 0 && b.len() > 0 && c.len() > 0 && a[0] == b[0] && b[0] == c[0] {
        lemma_not_after_transitive(a.skip(1), b.skip(1), c.skip(1));
    }
}

/// Each name comes before the ones behind it, or is the same.
pub open spec fn is_sorted(names: Seq<Seq<char>>) -> bool {
    forall|i: int, j: int|
        0 <= i < j < names.len() ==> not_after(#[trigger] names[i], #[trigger] names[j])
}

proof fn lemma_inserted(names: Seq<Seq<char>>, name: Seq<char>)
    requires
        is_sorted(names),
    ensures
        is_sorted(inserted(names, name)),
        inserted(names, name).to_multiset() == names.to_multiset().insert(name),
        inserted(names, name).len() == names.len() + 1,
        forall|x: Seq<char>| #[trigger]
            inserted(names, name).contains(x) <==> names.contains(x) || x == name,
    decreases names.len(),
{
    broadcast use vstd::seq_lib::group_to_multiset_ensures;

    let all = inserted(names, name);
    if names.len() == 0 || not_after(names.last(), name) {
        assert forall|i: int, j: int| 0 <= i < j < all.len() implies not_after(
            #[trigger] all[i],
            #[trigger] all[j],
        ) by {
            if j == names.len() && i < names.len() - 1 {
                assert(not_after(names[i], names[names.len() - 1]));
                lemma_not_after_transitive(names[i], names.last(), name);
            }
        }
        assert forall|x: Seq<char>| #[trigger] all.contains(x) <==> names.contains(x) || x
            == name by {
            if names.contains(x) {
                let k = choose|k: int| 0 <= k < names.len() && names[k] == x;
                assert(all[k] == x);
            }
            if x == name {
                assert(all[names.len() as int] == x);
            }
        }
    } else {
        let front = names.drop_last();
        let last = names.last();
        lemma_inserted(front, name);
        lemma_not_after_total(name, last);
        let grown = inserted(front, name);
        assert forall|i: int, j: int| 0 <= i < j < all.len() implies not_after(
            #[trigger] all[i],
            #[trigger] all[j],
        ) by {
            if j == all.len() - 1 {
                assert(grown.contains(all[i])) by {
                    assert(grown[i] == all[i]);
                }
                if all[i] != name {
                    let k = choose|k: int| 0 <= k < front.len() && front[k] == all[i];
                    assert(not_after(names[k], names[names.len() - 1]));
                }
            } else {
                assert(grown[i] == all[i] && grown[j] == all[j]);
            }
        }
        assert(names =~= front.push(last));
        assert(all.to_multiset() == grown.to_multiset().insert(last));
        assert(names.to_multiset() == front.to_multiset().insert(last));
        assert(front.to_multiset().insert(name).insert(last) =~= front.to_multiset().insert(
            last,
        ).insert(name));
        assert forall|x: Seq<char>| #[trigger] all.contains(x) <==> names.contains(x) || x
            == name by {
            if names.contains(x) {
                let k = choose|k: int| 0 <= k < names.len() && names[k] == x;
                if k < front.len() {
                    assert(front[k] == x);
                    assert(grown.contains(x));
                    let m = choose|m: int| 0 <= m < grown.len() && grown[m] == x;
                    assert(all[m] == x);
                } else {
                    assert(all[all.len() - 1] == x);
                }
            }
            if x == name {
                assert(grown.contains(x));
                let m = choose|m: int| 0 <= m < grown.len() && grown[m] == x;
                assert(all[m] == x);
            }
            if all.contains(x) {
                let m = choose|m: int| 0 <= m < all.len() && all[m] == x;
                if m < grown.len() {
                    assert(grown[m] == x);
                    assert(grown.contains(x));
                    if x != name {
                        let k = choose|k: int| 0 <= k < front.len() && front[k] == x;
                        assert(names[k] == x);
                    }
                } else {
                    assert(names[names.len() - 1] == x);
                }
            }
        }
    }
}

/// Sorting sorts, and neither drops nor adds a name.
pub proof fn law_sorting_keeps_the_names(names: Seq<Seq<char>>)
    ensures
        is_sorted(sorted(names)),
        sorted(names).to_multiset() == names.to_multiset(),
        forall|x: Seq<char>| #[trigger] sorted(names).contains(x) <==> names.contains(x),
    decreases names.len(),
{
    broadcast use vstd::seq_lib::group_to_multiset_ensures;

    if names.len() > 0 {
        let front = names.drop_last();
        law_sorting_keeps_the_names(front);
        lemma_inserted(sorted(front), names.last());
        assert(names =~= front.push(names.last()));
        assert forall|x: Seq<char>| #[trigger] sorted(names).contains(x) <==> names.contains(x) by {
            if names.contains(x) {
                let k = choose|k: int| 0 <= k < names.len() && names[k] == x;
                if k < front.len() {
                    assert(front[k] == x);
                    assert(front.contains(x));
                }
            }
            if front.contains(x) {
                let k = choose|k: int| 0 <= k < front.len() && front[k] == x;
                assert(names[k] == x);
            }
            if x == names.last() {
                assert(names[names.len() - 1] == x);
            }
        }
    }
}

proof fn lemma_completed(start: Seq<Seq<char>>, on_disk: Seq<Seq<char>>)
    ensures
        forall|x: Seq<char>| #[trigger]
            completed(start, on_disk).contains(x) <==> start.contains(x) || on_disk.contains(x),
        start.len() <= completed(start, on_disk).len(),
        completed(start, on_disk).take(start.len() as int) == start,
    decreases on_disk.len(),
{
    if on_disk.len() == 0 {
        assert(start.take(start.len() as int) =~= start);
        assert forall|x: Seq<char>| #[trigger] completed(start, on_disk).contains(
            x,
        ) <==> start.contains(x) || on_disk.contains(x) by {}
    } else {
        let front = on_disk.drop_last();
        let last = on_disk.last();
        lemma_completed(start, front);
        let before = completed(start, front);
        let all = completed(start, on_disk);
        assert(all.take(start.len() as int) =~= before.take(start.len() as int));
        assert forall|x: Seq<char>| #[trigger] all.contains(x) <==> start.contains(x)
            || on_disk.contains(x) by {
            if on_disk.contains(x) {
                let k = choose|k: int| 0 <= k < on_disk.len() && on_disk[k] == x;
                if k < front.len() {
                    assert(front[k] == x);
                    assert(front.contains(x));
                }
            }
            if front.contains(x) {
                let k = choose|k: int| 0 <= k < front.len() && front[k] == x;
                assert(on_disk[k] == x);
            }
            assert(on_disk[on_disk.len() - 1] == last);
            if before.contains(x) {
                let k = choose|k: int| 0 <= k < before.len() && before[k] == x;
                assert(all[k] == x);
            }
            if x == last && !before.contains(last) {
                assert(all[before.len() as int] == x);
            }
            if all.contains(x) {
                let k = choose|k: int| 0 <= k < all.len() && all[k] == x;
                if k < before.len() {
                    assert(before[k] == x);
                    assert(before.contains(x));
                }
            }
        }
    }
}

proof fn lemma_listed(order: Seq<Seq<char>>, on_disk: Seq<Seq<char>>)
    ensures
        forall|x: Seq<char>| #[trigger]
            listed(order, on_disk).contains(x) <==> order.contains(x) && on_disk.contains(x),
    decreases order.len(),
{
    if order.len() == 0 {
        assert forall|x: Seq<char>| #[trigger] listed(order, on_disk).contains(
            x,
        ) <==> order.contains(x) && on_disk.contains(x) by {}
    } else {
        let front = order.drop_last();
        let last = order.last();
        lemma_listed(front, on_disk);
        let before = listed(front, on_disk);
        let all = listed(order, on_disk);
        assert forall|x: Seq<char>| #[trigger] all.contains(x) <==> order.contains(x)
            && on_disk.contains(x) by {
            assert(order[order.len() - 1] == last);
            if order.contains(x) {
                let k = choose|k: int| 0 <= k < order.len() && order[k] == x;
                if k < front.len() {
                    assert(front[k] == x);
                    assert(front.contains(x));
                }
            }
            if front.contains(x) {
                let k = choose|k: int| 0 <= k < front.len() && front[k] == x;
                assert(order[k] == x);
            }
            if before.contains(x) {
                let k = choose|k: int| 0 <= k < before.len() && before[k] == x;
                assert(all[k] == x);
            }
            if x == last && on_disk.contains(last) {
                assert(all[before.len() as int] == x);
            }
            if all.contains(x) {
                let k = choose|k: int| 0 <= k < all.len() && all[k] == x;
                if k < before.len() {
                    assert(before[k] == x);
                    assert(before.contains(x));
                }
            }
        }
    }
}

/// A folder is read child by child: every child is, whether the order lists it or
/// not, and nothing else is.
pub proof fn law_no_child_is_dropped(order: Seq<Seq<char>>, entries: Seq<Entry>, name: Seq<char>)
    ensures
        sequence(order, entries).contains(name) <==> child_names(entries).contains(name),
{
    let on_disk = sorted(child_names(entries));
    law_sorting_keeps_the_names(child_names(entries));
    lemma_listed(order, on_disk);
    lemma_completed(listed(order, on_disk), on_disk);
    assert(sorted(child_names(entries)).contains(name) <==> child_names(entries).contains(name));
    assert(listed(order, on_disk).contains(name) <==> order.contains(name) && on_disk.contains(
        name,
    ));
}

/// What the order lists comes first, in that order.
pub proof fn law_the_order_comes_first(order: Seq<Seq<char>>, entries: Seq<Entry>)
    ensures
        ({
            let first = listed(order, sorted(child_names(entries)));
            &&& first.len() <= sequence(order, entries).len()
            &&& sequence(order, entries).take(first.len() as int) == first
        }),
{
    let on_disk = sorted(child_names(entries));
    lemma_completed(listed(order, on_disk), on_disk);
}

/// A request without a name is named after its file, and never has an empty name.
pub proof fn law_a_request_is_named(doc: json::JsonView, path: Seq<char>, rel: Seq<char>)
    requires
        json::text_member(doc, "name"@) is None,
    ensures
        read_document(doc, path, rel) matches ReadView::Item(Some(item), _) ==> item.name.len() > 0
            && (paths::file_stem(path) is Some ==> Some(item.name) == paths::file_stem(path)),
{
    reveal_strlit("request");
    if paths::file_name(path) is Some {
        paths::law_stem_is_not_empty(path);
    }
}

/// A row that is turned off is not sent.
pub proof fn law_disabled_rows_are_dropped(before: Seq<json::JsonView>, row: json::JsonView)
    requires
        json::as_bool(json::member(row, "enabled"@)) == Some(false),
    ensures
        row_pairs(before.push(row)) == row_pairs(before),
{
    assert(before.push(row).drop_last() =~= before);
}

/// Two readings of a folder gave the same, or both failed.
pub open spec fn folders_agree(a: FolderView, b: FolderView) -> bool {
    a == b || (a is Error && b is Error)
}

proof fn lemma_folder_alike(
    folder: Folder,
    manifest: json::JsonView,
    a: Seq<char>,
    b: Seq<char>,
    rel: Seq<char>,
)
    requires
        paths::end_alike(a, b),
    ensures
        folders_agree(
            folder_items(folder, manifest, a, rel),
            folder_items(folder, manifest, b, rel),
        ),
    decreases folder, 0nat,
{
    if let Ok(entries) = folder.entries {
        let names = sequence(string_list(manifest, "order"@), entries@);
        lemma_named_alike(entries@, names, a, b, rel);
    }
}

proof fn lemma_named_alike(
    entries: Seq<Entry>,
    names: Seq<Seq<char>>,
    a: Seq<char>,
    b: Seq<char>,
    rel: Seq<char>,
)
    requires
        paths::end_alike(a, b),
    ensures
        folders_agree(named_items(entries, names, a, rel), named_items(entries, names, b, rel)),
    decreases entries, names.len(),
{
    if names.len() > 0 {
        lemma_named_alike(entries, names.drop_last(), a, b, rel);
        if let Some(i) = place_of(entries, names.last()) {
            if 0 <= i < entries.len() {
                lemma_entry_alike(entries[i], a, b, rel);
            }
        }
    }
}

proof fn lemma_entry_alike(entry: Entry, a: Seq<char>, b: Seq<char>, rel: Seq<char>)
    requires
        paths::end_alike(a, b),
    ensures
        entry_item(entry, a, rel) == entry_item(entry, b, rel) || (entry_item(entry, a, rel)
            is Error && entry_item(entry, b, rel) is Error),
    decreases entry, 0nat,
{
    let x = paths::joined(a, entry.name@);
    let y = paths::joined(b, entry.name@);
    let here = paths::joined(rel, entry.name@);
    paths::lemma_joined_alike(a, b, entry.name@);
    paths::lemma_same_file_name(x, y);
    if let Node::Folder(folder) = entry.node {
        if let Ok(doc) = folder_manifest(folder.manifest, x) {
            lemma_folder_alike(folder, doc, x, y, here);
        }
    }
}

/// The manifest and the directory that it stands in name the same collection: what
/// stands there is read into the same scenario, or into none. An error, which holds
/// the path, reads the same too, unless the path of the directory ends in a point
/// or in more than one separator that do not count.
pub proof fn law_manifest_and_directory_agree(
    path: Seq<char>,
    by_dir: Collection,
    by_file: Collection,
)
    requires
        root_of(path, true) == Some(by_dir.root@),
        root_of(paths::joined(path, "knockport.yaml"@), false) == Some(by_file.root@),
        by_dir.manifest == by_file.manifest,
        by_dir.requests == by_file.requests,
    ensures
        collection_scenario(by_dir) is Ok || collection_scenario(by_file) is Ok
            ==> collection_scenario(by_dir) == collection_scenario(by_file),
        by_dir.root@ == by_file.root@ || (by_dir.root@ == by_file.root@.push('/') && by_file.root@
            != seq!['/']) ==> collection_scenario(by_dir) == collection_scenario(by_file),
{
    reveal_strlit("knockport.yaml");
    reveal_strlit("requests");
    let a = by_dir.root@;
    let b = by_file.root@;
    paths::lemma_parent_of_joined(path, "knockport.yaml"@);
    paths::lemma_plain_is_alike(a, "knockport.yaml"@);
    paths::lemma_plain_is_alike(a, "requests"@);
    if let Ok(s) = by_dir.manifest {
        if let Ok(doc) = json::yaml_document(s@) {
            if let Some(folder) = by_dir.requests {
                lemma_folder_alike(
                    folder,
                    doc,
                    paths::joined(a, "requests"@),
                    paths::joined(b, "requests"@),
                    "requests"@,
                );
            }
        }
    }
}

/// The texts by which a body is known to be one text.
pub open spec fn is_text_body(kind: Seq<char>) -> bool {
    kind == "json"@ || kind == "raw"@ || kind == "text"@ || kind == "xml"@ || kind == "graphql"@
}

/// A row is sent under a key: it is not turned off, and that is its key.
pub open spec fn row_has_key(row: json::JsonView, key: Seq<char>) -> bool {
    json::as_bool(json::member(row, "enabled"@)) != Some(false) && json::text_member(row, "key"@)
        == Some(key)
}

/// A document with an address and a method is read into a request, whatever else it
/// holds.
pub proof fn law_requests_are_read(
    doc: json::JsonView,
    path: Seq<char>,
    rel: Seq<char>,
    r: Result<Option<ScenarioItem>, String>,
    before: Seq<Seq<char>>,
    after: Seq<Seq<char>>,
)
    requires
        gives(r, before, after, read_document(doc, path, rel)),
        json::text_member(doc, "url"@) is Some,
        json::text_member(doc, "method"@) matches Some(m) ==> named_method(m) is Some,
    ensures
        r matches Ok(Some(item)) && item.request is Some,
{
    lemma_get_is_a_method();
}

proof fn lemma_get_is_a_method()
    ensures
        named_method("GET"@) == Some("GET"@),
{
    reveal_strlit("GET");
    let g = "GET"@;
    assert(g.len() == 3 && g[0] == 'G' && g[1] == 'E' && g[2] == 'T');
    text::lemma_trim_padded(Seq::empty(), g, Seq::empty());
    assert(Seq::empty() + g + Seq::empty() =~= g);
    assert(text::upper(g) =~= g);
}

/// A request keeps a body of one text: exactly that text is sent.
pub proof fn law_text_body_is_kept(
    doc: json::JsonView,
    path: Seq<char>,
    rel: Seq<char>,
    r: Result<Option<ScenarioItem>, String>,
    before: Seq<Seq<char>>,
    after: Seq<Seq<char>>,
    body: json::JsonView,
    raw: Seq<char>,
)
    requires
        gives(r, before, after, read_document(doc, path, rel)),
        r matches Ok(Some(_)),
        json::member(doc, "body"@) == Some(body),
        json::text_member(body, "type"@) matches Some(kind) && (kind == "json"@ || kind == "raw"@
            || kind == "text"@ || kind == "xml"@ || kind == "graphql"@),
        json::text_member(body, "raw"@) == Some(raw),
    ensures
        r->Ok_0->0.request matches Some(q) && (q.body matches Some(Body::Raw(t)) && t@ == raw),
{
    let item = r->Ok_0->0;
    assert(item@.request == scenario::opt_request(item.request));
    let q = item.request->0;
    assert(q@.body == http::opt_body(q.body));
}

/// A request keeps a form: each key of a row that is not turned off is sent, with
/// the value of the last such row, and no other key is.
pub proof fn law_form_body_is_kept(
    doc: json::JsonView,
    path: Seq<char>,
    rel: Seq<char>,
    r: Result<Option<ScenarioItem>, String>,
    before: Seq<Seq<char>>,
    after: Seq<Seq<char>>,
    body: json::JsonView,
    rows: Seq<json::JsonView>,
)
    requires
        gives(r, before, after, read_document(doc, path, rel)),
        r matches Ok(Some(_)),
        json::member(doc, "body"@) == Some(body),
        json::text_member(body, "type"@) == Some("form-urlencoded"@) || json::text_member(
            body,
            "type"@,
        ) == Some("multipart-form"@),
        json::member(body, "formData"@) matches Some(list) && list.node == json::NodeView::Array(
            rows,
        ),
    ensures
        r->Ok_0->0.request matches Some(q) && (q.body matches Some(Body::UrlEncoded(form)) && {
            let sent = string_map::texts(form@);
            &&& forall|i: int, key: Seq<char>|
                #![trigger row_has_key(rows[i], key)]
                0 <= i < rows.len() && row_has_key(rows[i], key) && (forall|j: int|
                    i < j < rows.len() ==> !row_has_key(#[trigger] rows[j], key)) ==> {
                    &&& sent.contains_key(key)
                    &&& sent[key] == (match json::text_member(rows[i], "value"@) {
                        Some(v) => v,
                        None => Seq::empty(),
                    })
                }
            &&& forall|key: Seq<char>| #[trigger]
                sent.contains_key(key) ==> exists|i: int|
                    0 <= i < rows.len() && row_has_key(#[trigger] rows[i], key)
        }),
{
    let item = r->Ok_0->0;
    assert(item@.request == scenario::opt_request(item.request));
    let q = item.request->0;
    assert(q@.body == http::opt_body(q.body));
    lemma_form_kinds();
    let sent = pair_map(row_pairs(rows));
    assert(declared_body(doc) == Some(http::BodyView::UrlEncoded(sent)));
    assert forall|i: int, key: Seq<char>|
        #![trigger row_has_key(rows[i], key)]
        0 <= i < rows.len() && row_has_key(rows[i], key) && (forall|j: int|
            i < j < rows.len() ==> !row_has_key(#[trigger] rows[j], key)) implies {
        &&& sent.contains_key(key)
        &&& sent[key] == (match json::text_member(rows[i], "value"@) {
            Some(v) => v,
            None => Seq::empty(),
        })
    } by {
        lemma_last_row_wins(rows, i, key);
    }
    assert forall|key: Seq<char>| #[trigger] sent.contains_key(key) implies exists|i: int|
        0 <= i < rows.len() && row_has_key(#[trigger] rows[i], key) by {
        if !(exists|i: int| 0 <= i < rows.len() && row_has_key(#[trigger] rows[i], key)) {
            lemma_no_row_no_key(rows, key);
        }
    }
}

proof fn lemma_form_kinds()
    ensures
        !is_text_body("form-urlencoded"@),
        !is_text_body("multipart-form"@),
        !is_text_body("binary"@),
        !is_text_body(Seq::empty()),
        "binary"@ != "form-urlencoded"@,
        "binary"@ != "multipart-form"@,
        "form-urlencoded"@.len() > 0,
        "multipart-form"@.len() > 0,
{
    reveal_strlit("json");
    reveal_strlit("raw");
    reveal_strlit("text");
    reveal_strlit("xml");
    reveal_strlit("graphql");
    reveal_strlit("form-urlencoded");
    reveal_strlit("multipart-form");
    reveal_strlit("binary");
    assert("json"@.len() == 4 && "raw"@.len() == 3 && "text"@.len() == 4 && "xml"@.len() == 3
        && "graphql"@.len() == 7);
    assert("form-urlencoded"@.len() == 15 && "multipart-form"@.len() == 14 && "binary"@.len() == 6);
}

proof fn lemma_last_row_wins(rows: Seq<json::JsonView>, i: int, key: Seq<char>)
    requires
        0 <= i < rows.len(),
        row_has_key(rows[i], key),
        forall|j: int| i < j < rows.len() ==> !row_has_key(#[trigger] rows[j], key),
    ensures
        pair_map(row_pairs(rows)).contains_key(key),
        pair_map(row_pairs(rows))[key] == (match json::text_member(rows[i], "value"@) {
            Some(v) => v,
            None => Seq::empty(),
        }),
    decreases rows.len(),
{
    let front = rows.drop_last();
    if let Some(p) = row_pair(rows.last()) {
        assert(row_pairs(front).push(p).drop_last() =~= row_pairs(front));
    }
    if i < rows.len() - 1 {
        assert(front[i] == rows[i]);
        assert forall|j: int| i < j < front.len() implies !row_has_key(#[trigger] front[j], key) by {
            assert(front[j] == rows[j]);
        }
        lemma_last_row_wins(front, i, key);
        assert(!row_has_key(rows[rows.len() - 1], key));
    }
}

proof fn lemma_no_row_no_key(rows: Seq<json::JsonView>, key: Seq<char>)
    requires
        forall|i: int| 0 <= i < rows.len() ==> !row_has_key(#[trigger] rows[i], key),
    ensures
        !pair_map(row_pairs(rows)).contains_key(key),
    decreases rows.len(),
{
    if rows.len() > 0 {
        let front = rows.drop_last();
        assert forall|i: int| 0 <= i < front.len() implies !row_has_key(#[trigger] front[i], key) by {
            assert(front[i] == rows[i]);
        }
        lemma_no_row_no_key(front, key);
        if let Some(p) = row_pair(rows.last()) {
            assert(row_pairs(front).push(p).drop_last() =~= row_pairs(front));
        }
        assert(!row_has_key(rows[rows.len() - 1], key));
    }
}

/// A request has no body where none is declared, where what is declared lacks its
/// text or its rows, and where its type is none of the seven: a file above all.
pub proof fn law_bodies_that_are_not_sent(doc: json::JsonView, body: json::JsonView)
    requires
        json::member(doc, "body"@) == Some(body),
    ensures
        json::text_member(body, "type"@) is None ==> declared_body(doc) is None,
        json::text_member(body, "type"@) == Some("binary"@) ==> declared_body(doc) is None,
        json::text_member(body, "type"@) matches Some(kind) && !is_text_body(kind) && kind
            != "form-urlencoded"@ && kind != "multipart-form"@ ==> declared_body(doc) is None,
        json::text_member(body, "type"@) matches Some(kind) && is_text_body(kind) && !(
        json::text_member(body, "raw"@) is Some) ==> declared_body(doc) is None,
        json::text_member(body, "type"@) matches Some(kind) && !is_text_body(kind)
            && json::as_array(json::member(body, "formData"@)) is None ==> declared_body(
            doc,
        ) is None,
{
    lemma_form_kinds();
}

/// Without a declared body there is none.
pub proof fn law_no_body_is_made_up(doc: json::JsonView)
    requires
        json::member(doc, "body"@) is None,
    ensures
        declared_body(doc) is None,
{
}

/// The fields of a request are those of its document: the address as it stands, the
/// method or `GET`, the rows of its headers in their order, and its name. It has no
/// scripts and no items below it.
pub proof fn law_request_keeps_its_fields(
    doc: json::JsonView,
    path: Seq<char>,
    rel: Seq<char>,
    r: Result<Option<ScenarioItem>, String>,
    before: Seq<Seq<char>>,
    after: Seq<Seq<char>>,
)
    requires
        gives(r, before, after, read_document(doc, path, rel)),
        r matches Ok(Some(_)),
    ensures
        ({
            let item = r->Ok_0->0;
            let q = item.request->0;
            &&& item.request is Some
            &&& json::text_member(doc, "url"@) == Some(q.url@)
            &&& json::text_member(doc, "method"@) matches Some(m) ==> named_method(m) == Some(
                q.method@,
            )
            &&& json::text_member(doc, "method"@) is None ==> q.method@ == "GET"@
            &&& json::as_array(json::member(doc, "headers"@)) matches Some(rows)
                ==> headers::pair_views(q.headers@) == row_pairs(rows)
            &&& json::as_array(json::member(doc, "headers"@)) is None ==> q.headers@.len() == 0
            &&& json::as_array(json::member(doc, "params"@)) matches Some(rows)
                ==> string_map::texts(q.query_params@) == pair_map(row_pairs(rows))
            &&& json::as_array(json::member(doc, "params"@)) is None ==> string_map::texts(
                q.query_params@,
            ) == Map::<Seq<char>, Seq<char>>::empty()
            &&& json::text_member(doc, "name"@) matches Some(n) ==> item.name@ == n
            &&& item.id is None
            &&& item.prerequest@.len() == 0
            &&& item.test@.len() == 0
            &&& item.items@.len() == 0
        }),
{
    let item = r->Ok_0->0;
    assert(item@.request == scenario::opt_request(item.request));
    let q = item.request->0;
    lemma_get_is_a_method();
    assert(headers::pair_views(q.headers@).len() == q.headers@.len());
    assert(item@.prerequest.len() == item.prerequest@.len());
    assert(item@.test.len() == item.test@.len());
    assert(item@.items.len() == item.items@.len());
    assert(item@.id == text::opt_text(item.id));
}

/// The rows of a list are read one by one, in their order.
pub proof fn law_rows_are_read_one_by_one(a: Seq<json::JsonView>, b: Seq<json::JsonView>)
    ensures
        row_pairs(a + b) == row_pairs(a) + row_pairs(b),
    decreases b.len(),
{
    if b.len() == 0 {
        assert(a + b =~= a);
    } else {
        assert((a + b).drop_last() =~= a + b.drop_last());
        law_rows_are_read_one_by_one(a, b.drop_last());
        assert(row_pairs(a + b) =~= row_pairs(a) + row_pairs(b));
    }
}

/// A row gives its key with its value, or with no text where it has no value. It
/// gives nothing where it is turned off or has no key.
pub proof fn law_what_a_row_gives(row: json::JsonView, key: Seq<char>)
    ensures
        row_has_key(row, key) ==> row_pairs(seq![row]).len() == 1 && row_pairs(seq![row])[0].0
            == key && row_pairs(seq![row])[0].1 == (match json::text_member(row, "value"@) {
            Some(v) => v,
            None => Seq::empty(),
        }),
        json::text_member(row, "key"@) is None ==> row_pairs(seq![row]).len() == 0,
        json::as_bool(json::member(row, "enabled"@)) == Some(false) ==> row_pairs(seq![row]).len()
            == 0,
        row_pairs(Seq::empty()).len() == 0,
{
    let none = Seq::<json::JsonView>::empty();
    assert(seq![row].drop_last() =~= none);
    assert(row_pairs(none).len() == 0);
    assert(row_pairs(seq![row].drop_last()) == row_pairs(none));
}

/// Of pairs with the same key the last gives the value.
pub proof fn law_last_pair_wins(pairs: Seq<(Seq<char>, Seq<char>)>, i: int)
    requires
        0 <= i < pairs.len(),
        forall|j: int| i < j < pairs.len() ==> (#[trigger] pairs[j]).0 != pairs[i].0,
    ensures
        pair_map(pairs).contains_key(pairs[i].0),
        pair_map(pairs)[pairs[i].0] == pairs[i].1,
    decreases pairs.len(),
{
    if i < pairs.len() - 1 {
        let front = pairs.drop_last();
        assert(front[i] == pairs[i]);
        assert forall|j: int| i < j < front.len() implies (#[trigger] front[j]).0 != front[i].0 by {
            assert(front[j] == pairs[j]);
        }
        law_last_pair_wins(front, i);
        assert(pairs[pairs.len() - 1].0 != pairs[i].0);
    }
}

/// The map of a list of pairs has no key that the list lacks.
pub proof fn law_no_pair_is_made_up(pairs: Seq<(Seq<char>, Seq<char>)>, key: Seq<char>)
    requires
        forall|i: int| 0 <= i < pairs.len() ==> (#[trigger] pairs[i]).0 != key,
    ensures
        !pair_map(pairs).contains_key(key),
    decreases pairs.len(),
{
    if pairs.len() > 0 {
        let front = pairs.drop_last();
        assert forall|i: int| 0 <= i < front.len() implies (#[trigger] front[i]).0 != key by {
            assert(front[i] == pairs[i]);
        }
        law_no_pair_is_made_up(front, key);
        assert(pairs[pairs.len() - 1].0 != key);
    }
}

/// A method is named in any case and with space around it, and is one of seven.
pub proof fn law_methods(s: Seq<char>, m: Seq<char>)
    requires
        text::upper(text::trim(s)) == m,
    ensures
        named_method(s) is Some ==> named_method(s) == Some(m),
        named_method(s) is Some <==> m == "GET"@ || m == "POST"@ || m == "PUT"@ || m == "PATCH"@
            || m == "DELETE"@ || m == "HEAD"@ || m == "OPTIONS"@,
{
}

/// A document without an address is passed over with a note. One with an address
/// and another method is an error, which names the file and the method.
pub proof fn law_documents_that_are_no_requests(
    doc: json::JsonView,
    path: Seq<char>,
    rel: Seq<char>,
    r: Result<Option<ScenarioItem>, String>,
    before: Seq<Seq<char>>,
    after: Seq<Seq<char>>,
)
    requires
        gives(r, before, after, read_document(doc, path, rel)),
    ensures
        json::text_member(doc, "url"@) is None ==> (r matches Ok(None)) && after == before.push(
            rel + ": no url, skipped"@,
        ),
        json::text_member(doc, "url"@) is Some && json::text_member(doc, "method"@) is Some
            && named_method(json::text_member(doc, "method"@)->0) is None ==> (r matches Err(e)
            && e@ == rel + ": \""@ + json::text_member(doc, "method"@)->0
            + "\" is not an HTTP method"@),
        r is Err ==> json::text_member(doc, "url"@) is Some && json::text_member(doc, "method"@)
            is Some,
{
    lemma_get_is_a_method();
    if json::text_member(doc, "url"@) is None {
        assert(before + seq![rel + ": no url, skipped"@] =~= before.push(
            rel + ": no url, skipped"@,
        ));
    }
}

/// What a request could not bring across is noted, once each: scripts before or
/// after it, assertions, and a file for a body. Nothing else is.
pub proof fn law_what_is_noted_of_a_request(doc: json::JsonView, rel: Seq<char>)
    ensures
        ({
            let notes = request_notes(doc, rel);
            let scripts = rel
                + ": scripts are not imported — tropel's script realm is the pm/k6 surface and running a KnockPort script there would not be the same script"@;
            let assertions = rel + ": assertions are not imported"@;
            let file = rel + ": binary bodies are not imported"@;
            let has_scripts = json::member(doc, "prerequest"@) is Some || json::member(
                doc,
                "test"@,
            ) is Some;
            &&& notes.contains(scripts) <==> has_scripts
            &&& notes.contains(assertions) <==> json::member(doc, "assertions"@) is Some
            &&& notes.contains(file) <==> (json::member(doc, "body"@) matches Some(body)
                && json::text_member(body, "type"@) == Some("binary"@))
            &&& notes.no_duplicates()
            &&& forall|note: Seq<char>| #[trigger]
                notes.contains(note) ==> note == scripts || note == assertions || note == file
        }),
{
    reveal_strlit(
        ": scripts are not imported — tropel's script realm is the pm/k6 surface and running a KnockPort script there would not be the same script",
    );
    reveal_strlit(": assertions are not imported");
    reveal_strlit(": binary bodies are not imported");
    let notes = request_notes(doc, rel);
    let scripts = rel
        + ": scripts are not imported — tropel's script realm is the pm/k6 surface and running a KnockPort script there would not be the same script"@;
    let assertions = rel + ": assertions are not imported"@;
    let file = rel + ": binary bodies are not imported"@;
    assert(scripts[rel.len() as int + 2] == 's');
    assert(assertions[rel.len() as int + 2] == 'a');
    assert(file[rel.len() as int + 2] == 'b');
    if json::member(doc, "prerequest"@) is Some || json::member(doc, "test"@) is Some {
        assert(notes[0] == scripts);
        if json::member(doc, "assertions"@) is Some {
            assert(notes[1] == assertions);
            if has_binary_body(doc) {
                assert(notes[2] == file);
            }
        } else if has_binary_body(doc) {
            assert(notes[1] == file);
        }
    } else if json::member(doc, "assertions"@) is Some {
        assert(notes[0] == assertions);
        if has_binary_body(doc) {
            assert(notes[1] == file);
        }
    } else if has_binary_body(doc) {
        assert(notes[0] == file);
    }
}

/// The notes of a request follow those that were there.
pub proof fn law_notes_of_a_request(
    doc: json::JsonView,
    path: Seq<char>,
    rel: Seq<char>,
    r: Result<Option<ScenarioItem>, String>,
    before: Seq<Seq<char>>,
    after: Seq<Seq<char>>,
)
    requires
        gives(r, before, after, read_document(doc, path, rel)),
        r matches Ok(Some(_)),
    ensures
        after == before + request_notes(doc, rel),
{
}

/// A file that cannot be read, or is not YAML, is an error that names its path and
/// the cause. Any other is read as its document.
pub proof fn law_files_are_read(
    content: Result<String, String>,
    path: Seq<char>,
    rel: Seq<char>,
    r: Result<Option<ScenarioItem>, String>,
    before: Seq<Seq<char>>,
    after: Seq<Seq<char>>,
)
    requires
        gives(r, before, after, read_file(content, path, rel)),
    ensures
        content matches Err(e) ==> (r matches Err(m) && m@ == "cannot read "@ + path + ": "@ + e@),
        content matches Ok(s) && (json::yaml_document(s@) matches Err(e) && (r matches Ok(_) || r->Err_0@
            != path + " is not valid YAML: "@ + e)) ==> false,
        content matches Ok(s) && (json::yaml_document(s@) matches Ok(doc) && !gives(
            r,
            before,
            after,
            read_document(doc, path, rel),
        )) ==> false,
{
}

/// The strings of a list are read one by one, in their order; what is no string is
/// passed over.
pub proof fn law_strings_of_a_list(a: Seq<json::JsonView>, b: Seq<json::JsonView>)
    ensures
        string_items(a + b) == string_items(a) + string_items(b),
        a.len() == 1 && (a[0].node is Text) ==> string_items(a) == seq![a[0].node->Text_0],
        a.len() == 1 && !(a[0].node is Text) ==> string_items(a).len() == 0,
        a.len() == 0 ==> string_items(a).len() == 0,
    decreases b.len(),
{
    if b.len() == 0 {
        assert(a + b =~= a);
    } else {
        assert((a + b).drop_last() =~= a + b.drop_last());
        law_strings_of_a_list(a, b.drop_last());
        assert(string_items(a + b) =~= string_items(a) + string_items(b));
    }
    if a.len() == 1 {
        assert(a.drop_last() =~= Seq::empty());
        assert(string_items(a.drop_last()) =~= Seq::empty());
        if a[0].node is Text {
            assert(string_items(a) =~= seq![a[0].node->Text_0]);
        }
    }
}

/// A folder is a child whatever its name, a file where it is YAML by its name, and
/// the manifest of the folder is none.
pub proof fn law_children_of_a_folder(entry: Entry)
    ensures
        entry.name@ == "folder.yaml"@ ==> !is_child(entry),
        entry.name@ != "folder.yaml"@ && entry.node is Folder ==> is_child(entry),
        entry.name@ != "folder.yaml"@ && entry.node is File ==> (is_child(entry)
            <==> text::ends_with(entry.name@, ".yaml"@) || text::ends_with(entry.name@, ".yml"@)),
{
}

/// The children of a folder are listed by their names, one by one.
pub proof fn law_names_of_the_children(entries: Seq<Entry>, name: Seq<char>)
    ensures
        child_names(entries).contains(name) <==> exists|i: int|
            0 <= i < entries.len() && is_child(#[trigger] entries[i]) && entries[i].name@ == name,
    decreases entries.len(),
{
    if entries.len() > 0 {
        let front = entries.drop_last();
        let last = entries.len() - 1;
        law_names_of_the_children(front, name);
        let before = child_names(front);
        let all = child_names(entries);
        if all.contains(name) {
            let k = choose|k: int| 0 <= k < all.len() && all[k] == name;
            if k < before.len() {
                assert(before[k] == name);
                let i = choose|i: int|
                    0 <= i < front.len() && is_child(#[trigger] front[i]) && front[i].name@ == name;
                assert(entries[i] == front[i]);
            } else {
                assert(entries[last].name@ == name);
            }
        }
        if exists|i: int|
            0 <= i < entries.len() && is_child(#[trigger] entries[i]) && entries[i].name@ == name {
            let i = choose|i: int|
                0 <= i < entries.len() && is_child(#[trigger] entries[i]) && entries[i].name@
                    == name;
            if i < last {
                assert(front[i] == entries[i]);
                let k = choose|k: int| 0 <= k < before.len() && before[k] == name;
                assert(all[k] == name);
            } else {
                assert(all[before.len() as int] == name);
            }
        }
    }
}

/// Names are ordered as words are: by the first character in which they differ, and
/// a name comes before those that it begins.
pub proof fn law_order_of_names(a: Seq<char>, b: Seq<char>)
    ensures
        not_after(a, b) <==> (a.len() <= b.len() && b.take(a.len() as int) == a) || exists|i: int|
            0 <= i < a.len() && i < b.len() && #[trigger] a[i] < b[i] && a.take(i) == b.take(i),
    decreases a.len(),
{
    if a.len() == 0 {
        assert(b.take(0) =~= a);
    } else if b.len() > 0 {
        if a[0] == b[0] {
            let x = a.skip(1);
            let y = b.skip(1);
            law_order_of_names(x, y);
            if x.len() <= y.len() {
                if y.take(x.len() as int) == x {
                    assert forall|k: int| 0 <= k < a.len() implies #[trigger] b.take(a.len() as int)[k]
                        == a[k] by {
                        if k > 0 {
                            assert(y.take(x.len() as int)[k - 1] == x[k - 1]);
                        }
                    }
                    assert(b.take(a.len() as int) =~= a);
                }
                if b.take(a.len() as int) == a {
                    assert forall|k: int| 0 <= k < x.len() implies #[trigger] y.take(x.len() as int)[k]
                        == x[k] by {
                        assert(b.take(a.len() as int)[k + 1] == a[k + 1]);
                    }
                    assert(y.take(x.len() as int) =~= x);
                }
            }
            if exists|i: int|
                0 <= i < x.len() && i < y.len() && #[trigger] x[i] < y[i] && x.take(i) == y.take(i) {
                let i = choose|i: int|
                    0 <= i < x.len() && i < y.len() && #[trigger] x[i] < y[i] && x.take(i)
                        == y.take(i);
                assert forall|k: int| 0 <= k < i + 1 implies #[trigger] a.take(i + 1)[k] == b.take(i + 1)[k] by {
                    if k > 0 {
                        assert(x.take(i)[k - 1] == y.take(i)[k - 1]);
                    }
                }
                assert(a.take(i + 1) =~= b.take(i + 1));
                assert(a[i + 1] < b[i + 1]);
            }
            if exists|i: int|
                0 <= i < a.len() && i < b.len() && #[trigger] a[i] < b[i] && a.take(i) == b.take(i) {
                let i = choose|i: int|
                    0 <= i < a.len() && i < b.len() && #[trigger] a[i] < b[i] && a.take(i)
                        == b.take(i);
                assert(i > 0);
                assert forall|k: int| 0 <= k < i - 1 implies #[trigger] x.take(i - 1)[k] == y.take(i - 1)[k] by {
                    assert(a.take(i)[k + 1] == b.take(i)[k + 1]);
                }
                assert(x.take(i - 1) =~= y.take(i - 1));
                assert(x[i - 1] < y[i - 1]);
            }
        } else {
            if a.len() <= b.len() {
                assert(b.take(a.len() as int)[0] == b[0]);
            }
            if a[0] < b[0] {
                assert(a.take(0) =~= b.take(0));
            }
            if exists|i: int|
                0 <= i < a.len() && i < b.len() && #[trigger] a[i] < b[i] && a.take(i) == b.take(i) {
                let i = choose|i: int|
                    0 <= i < a.len() && i < b.len() && #[trigger] a[i] < b[i] && a.take(i)
                        == b.take(i);
                if i > 0 {
                    assert(a.take(i)[0] == b.take(i)[0]);
                }
            }
        }
    }
}

/// What the order lists is read in that order where the folder has it; each name
/// that it does not have is noted, in that order too.
pub proof fn law_the_order_is_kept(
    a: Seq<Seq<char>>,
    b: Seq<Seq<char>>,
    on_disk: Seq<Seq<char>>,
    rel: Seq<char>,
)
    ensures
        listed(a + b, on_disk) == listed(a, on_disk) + listed(b, on_disk),
        order_notes(a + b, on_disk, rel) == order_notes(a, on_disk, rel) + order_notes(
            b,
            on_disk,
            rel,
        ),
        a.len() == 1 && on_disk.contains(a[0]) ==> listed(a, on_disk) == a && order_notes(
            a,
            on_disk,
            rel,
        ).len() == 0,
        a.len() == 1 && !on_disk.contains(a[0]) ==> listed(a, on_disk).len() == 0 && order_notes(
            a,
            on_disk,
            rel,
        ) == seq![rel + (": order lists \""@ + a[0] + "\", which is not on disk"@)],
    decreases b.len(),
{
    if b.len() == 0 {
        assert(a + b =~= a);
        assert(listed(a + b, on_disk) =~= listed(a, on_disk) + listed(b, on_disk));
        assert(order_notes(a + b, on_disk, rel) =~= order_notes(a, on_disk, rel) + order_notes(
            b,
            on_disk,
            rel,
        ));
    } else {
        assert((a + b).drop_last() =~= a + b.drop_last());
        law_the_order_is_kept(a, b.drop_last(), on_disk, rel);
        assert(listed(a + b, on_disk) =~= listed(a, on_disk) + listed(b, on_disk));
        assert(order_notes(a + b, on_disk, rel) =~= order_notes(a, on_disk, rel) + order_notes(
            b,
            on_disk,
            rel,
        ));
    }
    if a.len() == 1 {
        assert(a.drop_last() =~= Seq::empty());
        assert(listed(a.drop_last(), on_disk) =~= Seq::empty());
        assert(order_notes(a.drop_last(), on_disk, rel) =~= Seq::empty());
        if on_disk.contains(a[0]) {
            assert(listed(a, on_disk) =~= a);
        } else {
            assert(order_notes(a, on_disk, rel) =~= seq![
                rel + (": order lists \""@ + a[0] + "\", which is not on disk"@),
            ]);
        }
    }
}

/// What the order does not list follows, sorted.
pub proof fn law_the_rest_is_sorted(order: Seq<Seq<char>>, entries: Seq<Entry>)
    ensures
        is_sorted(
            sequence(order, entries).skip(
                listed(order, sorted(child_names(entries))).len() as int,
            ),
        ),
{
    let on_disk = sorted(child_names(entries));
    law_sorting_keeps_the_names(child_names(entries));
    lemma_rest(listed(order, on_disk), on_disk);
}

proof fn lemma_rest(start: Seq<Seq<char>>, on_disk: Seq<Seq<char>>)
    requires
        is_sorted(on_disk),
    ensures
        start.len() <= completed(start, on_disk).len(),
        is_sorted(completed(start, on_disk).skip(start.len() as int)),
        forall|k: int|
            start.len() <= k < completed(start, on_disk).len() ==> on_disk.contains(
                #[trigger] completed(start, on_disk)[k],
            ),
    decreases on_disk.len(),
{
    if on_disk.len() > 0 {
        let front = on_disk.drop_last();
        let last = on_disk.last();
        assert forall|i: int, j: int| 0 <= i < j < front.len() implies not_after(
            #[trigger] front[i],
            #[trigger] front[j],
        ) by {
            assert(front[i] == on_disk[i] && front[j] == on_disk[j]);
        }
        lemma_rest(start, front);
        let before = completed(start, front);
        let after = completed(start, on_disk);
        let n = start.len() as int;
        assert forall|k: int| n <= k < after.len() implies on_disk.contains(#[trigger] after[k]) by {
            if k < before.len() {
                assert(front.contains(before[k]));
                let i = choose|i: int| 0 <= i < front.len() && front[i] == before[k];
                assert(on_disk[i] == after[k]);
            } else {
                assert(on_disk[on_disk.len() - 1] == after[k]);
            }
        }
        assert forall|i: int, j: int| 0 <= i < j < after.skip(n).len() implies not_after(
            #[trigger] after.skip(n)[i],
            #[trigger] after.skip(n)[j],
        ) by {
            if j + n < before.len() {
                assert(before.skip(n)[i] == after.skip(n)[i]);
                assert(before.skip(n)[j] == after.skip(n)[j]);
            } else {
                assert(front.contains(before[i + n]));
                let k = choose|k: int| 0 <= k < front.len() && front[k] == before[i + n];
                assert(not_after(on_disk[k], on_disk[on_disk.len() - 1]));
            }
        }
    }
}

/// The entry that is read under a name has that name, and where any has it one is
/// read.
pub proof fn law_entries_are_found_by_name(entries: Seq<Entry>, name: Seq<char>)
    ensures
        place_of(entries, name) matches Some(i) ==> 0 <= i < entries.len() && entries[i].name@
            == name,
        place_of(entries, name) is None ==> forall|i: int|
            0 <= i < entries.len() ==> (#[trigger] entries[i]).name@ != name,
    decreases entries.len(),
{
    if entries.len() > 0 {
        let front = entries.drop_last();
        law_entries_are_found_by_name(front, name);
        if place_of(entries, name) is None {
            assert forall|i: int| 0 <= i < entries.len() implies (#[trigger] entries[i]).name@
                != name by {
                if i < front.len() {
                    assert(front[i] == entries[i]);
                }
            }
        }
    }
}

/// What the entries of a folder give comes in the order of their names: each item
/// is what its entry gives, and there are no others.
pub proof fn law_items_come_in_order(
    entries: Seq<Entry>,
    names: Seq<Seq<char>>,
    dir: Seq<char>,
    rel: Seq<char>,
)
    requires
        named_items(entries, names, dir, rel) is Items,
        forall|i: int|
            0 <= i < names.len() ==> place_of(entries, #[trigger] names[i]) is Some && (entry_item(
                entries[place_of(entries, names[i])->0],
                dir,
                rel,
            ) matches ReadView::Item(Some(_), _)),
    ensures
        named_items(entries, names, dir, rel)->Items_0.len() == names.len(),
        forall|i: int|
            0 <= i < names.len() ==> Some(
                #[trigger] named_items(entries, names, dir, rel)->Items_0[i],
            ) == entry_item(entries[place_of(entries, names[i])->0], dir, rel)->Item_0,
    decreases names.len(),
{
    if names.len() > 0 {
        let front = names.drop_last();
        assert forall|i: int| 0 <= i < front.len() implies place_of(entries, #[trigger] front[i])
            is Some && (entry_item(entries[place_of(entries, front[i])->0], dir, rel) matches
            ReadView::Item(Some(_), _)) by {
            assert(front[i] == names[i]);
        }
        law_items_come_in_order(entries, front, dir, rel);
        law_entries_are_found_by_name(entries, names.last());
        assert(names[names.len() - 1] == names.last());
        let items = named_items(entries, names, dir, rel)->Items_0;
        let before = named_items(entries, front, dir, rel)->Items_0;
        assert forall|i: int| 0 <= i < names.len() implies Some(#[trigger] items[i]) == entry_item(
            entries[place_of(entries, names[i])->0],
            dir,
            rel,
        )->Item_0 by {
            if i < front.len() {
                assert(items[i] == before[i]);
                assert(front[i] == names[i]);
            }
        }
    }
}

/// One more name adds what its entry gives: its item, if it gives one, and its
/// notes behind those that were there. An error of any entry is that of the folder.
pub proof fn law_one_more_entry(
    entries: Seq<Entry>,
    names: Seq<Seq<char>>,
    name: Seq<char>,
    i: int,
    dir: Seq<char>,
    rel: Seq<char>,
)
    requires
        place_of(entries, name) == Some(i),
    ensures
        named_items(entries, names, dir, rel) is Error ==> named_items(
            entries,
            names.push(name),
            dir,
            rel,
        ) == named_items(entries, names, dir, rel),
        named_items(entries, names, dir, rel) matches FolderView::Items(items, notes) ==> {
            &&& entry_item(entries[i], dir, rel) matches ReadView::Error(e) ==> named_items(
                entries,
                names.push(name),
                dir,
                rel,
            ) == FolderView::Error(e)
            &&& entry_item(entries[i], dir, rel) matches ReadView::Item(Some(item), more)
                ==> named_items(entries, names.push(name), dir, rel) == FolderView::Items(
                items.push(item),
                notes + more,
            )
            &&& entry_item(entries[i], dir, rel) matches ReadView::Item(None, more)
                ==> named_items(entries, names.push(name), dir, rel) == FolderView::Items(
                items,
                notes + more,
            )
        },
{
    law_entries_are_found_by_name(entries, name);
    assert(names.push(name).drop_last() =~= names);
}

/// A file is read under the path of its directory and its own name, and its notes
/// speak of it by its path within the collection.
pub proof fn law_files_are_read_where_they_stand(entry: Entry, dir: Seq<char>, rel: Seq<char>)
    ensures
        entry.node matches Node::File(content) ==> entry_item(entry, dir, rel) == read_file(
            content,
            paths::joined(dir, entry.name@),
            paths::joined(rel, entry.name@),
        ),
{
}

/// A folder becomes an item that holds its children, and has the name that its
/// manifest gives it, or else its own. A manifest that is not YAML is an error.
pub proof fn law_folders_become_items(entry: Entry, folder: Folder, dir: Seq<char>, rel: Seq<char>)
    requires
        entry.node == Node::Folder(folder),
    ensures
        entry_item(entry, dir, rel) matches ReadView::Item(item, _) ==> (item matches Some(i) && {
            &&& i.request is None
            &&& i.id is None
            &&& i.test.len() == 0
            &&& i.prerequest.len() == 0
            &&& folder.manifest is None ==> i.name == entry.name@
            &&& folder.manifest matches Some(s) ==> (json::yaml_document(s@) matches Ok(doc) && {
                &&& json::text_member(doc, "name"@) matches Some(n) ==> i.name == n
                &&& json::text_member(doc, "name"@) is None ==> i.name == entry.name@
            })
        }),
        folder.manifest is Some && json::yaml_document(folder.manifest->0@) is Err ==> entry_item(
            entry,
            dir,
            rel,
        ) == ReadView::Error(
            paths::joined(paths::joined(dir, entry.name@), "folder.yaml"@)
                + " is not valid YAML: "@ + json::yaml_document(folder.manifest->0@)->Err_0,
        ),
{
    if folder.manifest is None {
        lemma_no_manifest_has_no_members();
    }
}

proof fn lemma_no_manifest_has_no_members()
    ensures
        json::text_member(no_manifest(), "name"@) is None,
        json::member(no_manifest(), "order"@) is None,
{
}

/// A folder whose entries cannot be read is an error that names its path and the
/// cause.
pub proof fn law_unreadable_folders(
    folder: Folder,
    manifest: json::JsonView,
    dir: Seq<char>,
    rel: Seq<char>,
)
    requires
        folder.entries is Err,
    ensures
        folder_items(folder, manifest, dir, rel) == FolderView::Error(
            "cannot read "@ + dir + ": "@ + folder.entries->Err_0@,
        ),
{
}

/// A folder is read in the order that its manifest lists; what is noted of that
/// order comes before what is noted of its children.
pub proof fn law_folders_are_read_in_their_order(
    folder: Folder,
    manifest: json::JsonView,
    dir: Seq<char>,
    rel: Seq<char>,
    entries: Vec<Entry>,
    order: Seq<Seq<char>>,
)
    requires
        folder.entries == Ok::<Vec<Entry>, String>(entries),
        json::as_array(json::member(manifest, "order"@)) matches Some(items) && string_items(items)
            == order,
    ensures
        named_items(entries@, sequence(order, entries@), dir, rel) matches FolderView::Error(e)
            ==> folder_items(folder, manifest, dir, rel) == FolderView::Error(e),
        named_items(entries@, sequence(order, entries@), dir, rel) matches FolderView::Items(
            items,
            notes,
        ) ==> folder_items(folder, manifest, dir, rel) == FolderView::Items(
            items,
            order_notes(order, sorted(child_names(entries@)), rel) + notes,
        ),
{
}

/// A collection is named by its manifest, or after its directory. Its description
/// is that of the manifest. It has no variables of its own, and its items and notes
/// are those of its requests.
pub proof fn law_collections_keep_what_they_say(c: Collection, doc: json::JsonView)
    ensures
        document_scenario(c, doc) matches Ok(s) ==> {
            &&& json::text_member(doc, "name"@) matches Some(n) ==> s.info.name == n
            &&& json::text_member(doc, "name"@) is None && paths::file_name(c.root@) is Some
                ==> Some(s.info.name) == paths::file_name(c.root@)
            &&& json::text_member(doc, "name"@) is None && paths::file_name(c.root@) is None
                ==> s.info.name == "KnockPort collection"@
            &&& s.info.description == json::text_member(doc, "description"@)
            &&& s.info.schema is None
            &&& forall|k: Seq<char>| !#[trigger] s.variables.contains_key(k)
            &&& c.requests matches Some(folder) ==> folder_items(
                folder,
                doc,
                paths::joined(c.root@, "requests"@),
                "requests"@,
            ) == FolderView::Items(s.items, s.conversion_notes)
            &&& c.requests is None ==> s.items.len() == 0 && s.conversion_notes == seq![
                "no requests/ directory beside knockport.yaml — the collection imported with no requests"@,
            ]
        },
        document_scenario(c, doc) matches Err(e) ==> (c.requests matches Some(folder)
            && folder_items(folder, doc, paths::joined(c.root@, "requests"@), "requests"@)
            == FolderView::Error(e)),
        c.requests is None ==> document_scenario(c, doc) is Ok,
{
}

/// A collection without a readable manifest is an error that names the manifest and
/// says what a collection must have.
pub proof fn law_collections_need_a_manifest(c: Collection)
    ensures
        c.manifest matches Err(e) ==> collection_scenario(c)
            == Err::<scenario::ScenarioView, Seq<char>>(
            "cannot read "@ + paths::joined(c.root@, "knockport.yaml"@) + ": "@ + e@
                + " — a KnockPort collection root must contain knockport.yaml"@,
        ),
        c.manifest is Ok && json::yaml_document(c.manifest->Ok_0@) is Err ==> collection_scenario(c)
            == Err::<scenario::ScenarioView, Seq<char>>(
            paths::joined(c.root@, "knockport.yaml"@) + " is not valid YAML: "@
                + json::yaml_document(c.manifest->Ok_0@)->Err_0,
        ),
        c.manifest is Ok && json::yaml_document(c.manifest->Ok_0@) is Ok ==> collection_scenario(c)
            == document_scenario(c, json::yaml_document(c.manifest->Ok_0@)->Ok_0),
{
}

/// A manifest has a name and a list for an order. What has a member by which another
/// format is known is none.
pub proof fn law_what_is_a_manifest(doc: json::JsonView)
    ensures
        is_manifest(doc) ==> json::member(doc, "name"@) is Some && json::as_array(
            json::member(doc, "order"@),
        ) is Some,
        is_manifest(doc) ==> !(json::member(doc, "openapi"@) is Some) && !(json::member(
            doc,
            "swagger"@,
        ) is Some) && !(json::member(doc, "log"@) is Some) && !(json::member(doc, "_type"@) is Some)
            && !(json::member(doc, "info"@) is Some) && !(json::member(doc, "items"@) is Some),
        json::text_member(doc, "version"@) == Some("1"@) ==> !is_manifest(doc),
        !is_manifest(doc) && json::member(doc, "name"@) is Some && json::as_array(
            json::member(doc, "order"@),
        ) is Some && json::text_member(doc, "version"@) != Some("1"@) ==> json::member(
            doc,
            "openapi"@,
        ) is Some || json::member(doc, "swagger"@) is Some || json::member(doc, "log"@) is Some
            || json::member(doc, "_type"@) is Some || json::member(doc, "info"@) is Some
            || json::member(doc, "items"@) is Some,
{
}

/// The root of a collection is the directory that was named, or the one of the file
/// that was.
pub proof fn law_roots_of_collections(path: Seq<char>)
    ensures
        root_of(path, true) == Some(path),
        root_of(path, false) == paths::parent(path),
{
}

} // verus!
