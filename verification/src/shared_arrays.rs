//! Arrays that the virtual users of a script share.
//!
//! An array is computed once and read by all. It is found by the directory of the
//! script and its name.

use crate::json;
use crate::json::Json;
use crate::string_map::StringMap;
use crate::text;
use vstd::prelude::*;
use vstd::string::*;

verus! {

/// The shared arrays of a process.
#[derive(Debug)]
pub struct SharedArrays {
    pub arrays: StringMap<Vec<Json>>,
}

/// The arrays by their keys.
pub open spec fn array_map(m: Map<Seq<char>, Vec<Json>>) -> Map<Seq<char>, Seq<json::JsonView>> {
    m.map_values(|v: Vec<Json>| json::items_view(v@))
}

/// The key of an array.
pub open spec fn cache_key(prefix: Seq<char>, name: Seq<char>) -> Seq<char> {
    prefix + "|"@ + name
}

/// The arrays after a document is stored. Only a list is stored.
pub open spec fn stored(
    m: Map<Seq<char>, Seq<json::JsonView>>,
    key: Seq<char>,
    doc: Option<json::JsonView>,
) -> Map<Seq<char>, Seq<json::JsonView>> {
    match json::as_array(doc) {
        Some(items) => m.insert(key, items),
        None => m,
    }
}

/// The length of an array, or `-1` where there is none.
pub open spec fn length_of(m: Map<Seq<char>, Seq<json::JsonView>>, key: Seq<char>) -> i32 {
    if m.contains_key(key) {
        m[key].len() as i32
    } else {
        -1i32
    }
}

/// The item of an array at an index, if there is one.
pub open spec fn item_of(m: Map<Seq<char>, Seq<json::JsonView>>, key: Seq<char>, i: i32) -> Option<
    json::JsonView,
> {
    if m.contains_key(key) && 0 <= i < m[key].len() {
        Some(m[key][i as int])
    } else {
        None
    }
}

fn key_of(prefix: &str, name: &str) -> (r: String)
    ensures
        r@ == cache_key(prefix@, name@),
{
    let mut r = text::cat(prefix, "|");
    r.append(name);
    r
}

impl SharedArrays {
    pub fn new() -> (r: SharedArrays)
        ensures
            r.arrays@ == Map::<Seq<char>, Vec<Json>>::empty(),
    {
        SharedArrays { arrays: StringMap::new() }
    }

    /// The length of an array, or `-1` where there is none.
    pub fn len(&self, prefix: &str, name: &str) -> (r: i32)
        ensures
            r == length_of(array_map(self.arrays@), cache_key(prefix@, name@)),
    {
        let key = key_of(prefix, name);
        match self.arrays.get(key.as_str()) {
            Some(v) => v.len() as i32,
            None => -1,
        }
    }

    /// The item of an array at an index, if there is one.
    pub fn get(&self, prefix: &str, name: &str, i: i32) -> (r: Option<&Json>)
        ensures
            json::opt_json(r) == item_of(array_map(self.arrays@), cache_key(prefix@, name@), i),
    {
        let key = key_of(prefix, name);
        match self.arrays.get(key.as_str()) {
            Some(v) => if i >= 0 && (i as usize) < v.len() {
                Some(&v[i as usize])
            } else {
                None
            },
            None => None,
        }
    }

    /// Stores a document as an array.
    pub fn store(&mut self, prefix: &str, name: &str, doc: Option<Json>)
        ensures
            array_map(final(self).arrays@) == stored(
                array_map(old(self).arrays@),
                cache_key(prefix@, name@),
                json::opt_document(doc),
            ),
    {
        if let Some(doc) = doc {
            if let Some(items) = doc.into_array() {
                let key = key_of(prefix, name);
                let ghost before = self.arrays@;
                self.arrays.insert(key, items);
                assert(array_map(self.arrays@) =~= array_map(before).insert(
                    key@,
                    json::items_view(items@),
                ));
            }
        }
    }

    /// Stores the array that a JSON text holds. A text that holds none changes
    /// nothing.
    pub fn set(&mut self, prefix: &str, name: &str, json: &str)
        ensures
            array_map(final(self).arrays@) == stored(
                array_map(old(self).arrays@),
                cache_key(prefix@, name@),
                json::json_document(json@),
            ),
    {
        let doc = Json::parse(json);
        self.store(prefix, name, doc);
    }
}

// ── laws ──

/// What is read is what was stored: its length, and each of its items.
pub proof fn law_read_gives_back_what_was_stored(
    m: Map<Seq<char>, Seq<json::JsonView>>,
    key: Seq<char>,
    doc: json::JsonView,
    items: Seq<json::JsonView>,
)
    requires
        doc.node == json::NodeView::Array(items),
        items.len() <= i32::MAX,
    ensures
        length_of(stored(m, key, Some(doc)), key) == items.len(),
        forall|i: i32|
            0 <= i < items.len() ==> #[trigger] item_of(stored(m, key, Some(doc)), key, i) == Some(
                items[i as int],
            ),
        forall|i: i32|
            !(0 <= i < items.len()) ==> #[trigger] item_of(
                stored(m, key, Some(doc)),
                key,
                i,
            ) is None,
{
}

/// Storing an array leaves the other ones as they are.
pub proof fn law_arrays_are_apart(
    m: Map<Seq<char>, Seq<json::JsonView>>,
    key: Seq<char>,
    other: Seq<char>,
    doc: Option<json::JsonView>,
    i: i32,
)
    requires
        key != other,
    ensures
        length_of(stored(m, key, doc), other) == length_of(m, other),
        item_of(stored(m, key, doc), other, i) == item_of(m, other, i),
{
}

/// Two arrays of one script have different keys where their names differ.
pub proof fn law_names_keep_arrays_apart(prefix: Seq<char>, a: Seq<char>, b: Seq<char>)
    requires
        a != b,
    ensures
        cache_key(prefix, a) != cache_key(prefix, b),
{
    let n = (prefix + "|"@).len() as int;
    if cache_key(prefix, a) == cache_key(prefix, b) {
        assert(cache_key(prefix, a).skip(n) =~= a);
        assert(cache_key(prefix, b).skip(n) =~= b);
    }
}

/// Arrays of scripts in different directories have different keys, whatever their
/// names, unless the path of one directory goes on with a bar after the path of
/// the other.
pub proof fn law_scripts_keep_arrays_apart(
    p: Seq<char>,
    q: Seq<char>,
    a: Seq<char>,
    b: Seq<char>,
)
    requires
        p != q,
        !text::starts_with(q, p + "|"@),
        !text::starts_with(p, q + "|"@),
    ensures
        cache_key(p, a) != cache_key(q, b),
{
    reveal_strlit("|");
    let x = cache_key(p, a);
    let y = cache_key(q, b);
    if x == y {
        if p.len() == q.len() {
            assert(x.take(p.len() as int) =~= p);
            assert(y.take(p.len() as int) =~= q);
        } else if p.len() < q.len() {
            let n = (p + "|"@).len() as int;
            assert(x.take(n) =~= p + "|"@);
            assert(q.take(n) =~= y.take(n));
            assert(q.subrange(0, n) =~= q.take(n));
        } else {
            let n = (q + "|"@).len() as int;
            assert(y.take(n) =~= q + "|"@);
            assert(p.take(n) =~= x.take(n));
            assert(p.subrange(0, n) =~= p.take(n));
        }
    }
}

/// The key of an array is the directory of the script and the name of the array,
/// with a bar between them.
pub proof fn law_keys_of_arrays(prefix: Seq<char>, name: Seq<char>)
    ensures
        cache_key(prefix, name).take(prefix.len() as int) == prefix,
        cache_key(prefix, name)[prefix.len() as int] == '|',
        cache_key(prefix, name).skip((prefix.len() + 1) as int) == name,
{
    reveal_strlit("|");
    assert(cache_key(prefix, name).take(prefix.len() as int) =~= prefix);
    assert(cache_key(prefix, name).skip((prefix.len() + 1) as int) =~= name);
}

/// What is no list is not stored, and an array that is not there has no length and
/// no items.
pub proof fn law_only_lists_are_stored(
    m: Map<Seq<char>, Seq<json::JsonView>>,
    key: Seq<char>,
    doc: Option<json::JsonView>,
    i: i32,
)
    ensures
        doc is None || !(doc->0.node is Array) ==> stored(m, key, doc) == m,
        !m.contains_key(key) ==> length_of(m, key) == -1 && item_of(m, key, i) is None,
{
}

} // verus!
