//! A map keyed by text that keeps its keys in the order of their first insertion.

use crate::text;
use vstd::prelude::*;

verus! {

/// The map that a list of entries stands for. A later entry wins.
pub open spec fn map_of<T>(entries: Seq<(String, T)>) -> Map<Seq<char>, T>
    decreases entries.len(),
{
    if entries.len() == 0 {
        Map::empty()
    } else {
        map_of(entries.drop_last()).insert(entries.last().0@, entries.last().1)
    }
}

/// The keys of a list of entries, in order.
pub open spec fn keys_of<T>(entries: Seq<(String, T)>) -> Seq<Seq<char>> {
    entries.map_values(|e: (String, T)| e.0@)
}

/// No key stands twice.
pub open spec fn distinct_keys<T>(entries: Seq<(String, T)>) -> bool {
    forall|i: int, j: int|
        0 <= i < j < entries.len() ==> (#[trigger] entries[i]).0@ != (#[trigger] entries[j]).0@
}

/// A key that stands in no entry is not in the map.
pub proof fn lemma_map_of_absent<T>(entries: Seq<(String, T)>, key: Seq<char>)
    requires
        forall|i: int| 0 <= i < entries.len() ==> (#[trigger] entries[i]).0@ != key,
    ensures
        !map_of(entries).contains_key(key),
    decreases entries.len(),
{
    if entries.len() > 0 {
        let rest = entries.drop_last();
        assert forall|i: int| 0 <= i < rest.len() implies (#[trigger] rest[i]).0@ != key by {
            assert(rest[i] == entries[i]);
        }
        lemma_map_of_absent(rest, key);
        assert(entries[entries.len() - 1].0@ != key);
    }
}

proof fn lemma_map_of_present<T>(entries: Seq<(String, T)>, i: int)
    requires
        distinct_keys(entries),
        0 <= i < entries.len(),
    ensures
        map_of(entries).contains_key(entries[i].0@),
        map_of(entries)[entries[i].0@] == entries[i].1,
    decreases entries.len(),
{
    let rest = entries.drop_last();
    if i < rest.len() {
        assert(distinct_keys(rest)) by {
            assert forall|a: int, b: int| 0 <= a < b < rest.len() implies (#[trigger] rest[a]).0@
                != (#[trigger] rest[b]).0@ by {
                assert(rest[a] == entries[a] && rest[b] == entries[b]);
            }
        }
        lemma_map_of_present(rest, i);
        assert(rest[i] == entries[i]);
        assert(entries[i].0@ != entries[entries.len() - 1].0@);
    }
}

proof fn lemma_map_of_update<T>(entries: Seq<(String, T)>, i: int, entry: (String, T))
    requires
        distinct_keys(entries),
        0 <= i < entries.len(),
        entry.0@ == entries[i].0@,
    ensures
        map_of(entries.update(i, entry)) == map_of(entries).insert(entry.0@, entry.1),
        distinct_keys(entries.update(i, entry)),
        keys_of(entries.update(i, entry)) == keys_of(entries),
    decreases entries.len(),
{
    let updated = entries.update(i, entry);
    let rest = entries.drop_last();
    assert(keys_of(updated) =~= keys_of(entries));
    assert forall|a: int, b: int| 0 <= a < b < updated.len() implies (#[trigger] updated[a]).0@ != (
    #[trigger] updated[b]).0@ by {
        assert(entries[a].0@ != entries[b].0@);
    }
    if i < rest.len() {
        assert forall|a: int, b: int| 0 <= a < b < rest.len() implies (#[trigger] rest[a]).0@ != (
        #[trigger] rest[b]).0@ by {
            assert(rest[a] == entries[a] && rest[b] == entries[b]);
        }
        lemma_map_of_update(rest, i, entry);
        assert(updated.drop_last() =~= rest.update(i, entry));
        assert(entries[i].0@ != entries[entries.len() - 1].0@);
        assert(map_of(updated) =~= map_of(entries).insert(entry.0@, entry.1));
    } else {
        assert(updated.drop_last() =~= rest);
        assert(map_of(updated) =~= map_of(entries).insert(entry.0@, entry.1));
    }
}

/// A map from text to values of `T`, in insertion order.
#[derive(Debug)]
pub struct StringMap<T> {
    entries: Vec<(String, T)>,
}

impl<T> View for StringMap<T> {
    type V = Map<Seq<char>, T>;

    closed spec fn view(&self) -> Map<Seq<char>, T> {
        map_of(self.entries@)
    }
}

impl<T> StringMap<T> {
    #[verifier::type_invariant]
    spec fn distinct(self) -> bool {
        distinct_keys(self.entries@)
    }

    /// The entries in insertion order.
    pub closed spec fn order(self) -> Seq<(String, T)> {
        self.entries@
    }

    /// The map is that of the entries.
    pub proof fn lemma_view(&self)
        ensures
            self@ == map_of(self.order()),
    {
    }

    pub fn new() -> (r: Self)
        ensures
            r@ == Map::<Seq<char>, T>::empty(),
            r.order() == Seq::<(String, T)>::empty(),
    {
        StringMap { entries: Vec::new() }
    }

    pub fn len(&self) -> (n: usize)
        ensures
            n == self.order().len(),
    {
        self.entries.len()
    }

    pub fn is_empty(&self) -> (r: bool)
        ensures
            r == (self.order().len() == 0),
            r == (self@ == Map::<Seq<char>, T>::empty()),
    {
        proof {
            use_type_invariant(self);
            if self.entries@.len() > 0 {
                lemma_map_of_present(self.entries@, 0);
            }
        }
        self.entries.len() == 0
    }

    /// The entry at position `i` in insertion order.
    pub fn entry(&self, i: usize) -> (r: &(String, T))
        requires
            i < self.order().len(),
        ensures
            *r == self.order()[i as int],
            self@.contains_key(r.0@),
            self@[r.0@] == r.1,
            distinct_keys(self.order()),
    {
        proof {
            use_type_invariant(self);
            lemma_map_of_present(self.entries@, i as int);
        }
        &self.entries[i]
    }

    fn position(&self, key: &str) -> (r: Option<usize>)
        ensures
            match r {
                Some(i) => i < self.entries@.len() && self.entries@[i as int].0@ == key@,
                None => forall|i: int|
                    0 <= i < self.entries@.len() ==> (#[trigger] self.entries@[i]).0@ != key@,
            },
    {
        let mut i: usize = 0;
        while i < self.entries.len()
            invariant
                i <= self.entries@.len(),
                forall|k: int| 0 <= k < i ==> (#[trigger] self.entries@[k]).0@ != key@,
            decreases self.entries@.len() - i,
        {
            if text::same_text(self.entries[i].0.as_str(), key) {
                return Some(i);
            }
            i += 1;
        }
        None
    }

    pub fn get(&self, key: &str) -> (r: Option<&T>)
        ensures
            match r {
                Some(v) => self@.contains_key(key@) && *v == self@[key@],
                None => !self@.contains_key(key@),
            },
    {
        proof {
            use_type_invariant(self);
        }
        match self.position(key) {
            Some(i) => {
                proof {
                    lemma_map_of_present(self.entries@, i as int);
                }
                Some(&self.entries[i].1)
            },
            None => {
                proof {
                    lemma_map_of_absent(self.entries@, key@);
                }
                None
            },
        }
    }

    pub fn contains_key(&self, key: &str) -> (r: bool)
        ensures
            r == self@.contains_key(key@),
    {
        match self.get(key) {
            Some(_) => true,
            None => false,
        }
    }

    /// Sets the value of `key`. A key that is present keeps its position.
    pub fn insert(&mut self, key: String, value: T)
        ensures
            final(self)@ == old(self)@.insert(key@, value),
            !old(self)@.contains_key(key@) ==> final(self).order() == old(self).order().push(
                (key, value),
            ),
            old(self)@.contains_key(key@) ==> keys_of(final(self).order()) == keys_of(
                old(self).order(),
            ),
    {
        proof {
            use_type_invariant(&*self);
        }
        let found = self.position(key.as_str());
        let mut entries: Vec<(String, T)> = Vec::new();
        std::mem::swap(&mut entries, &mut self.entries);
        match found {
            Some(i) => {
                proof {
                    lemma_map_of_update(entries@, i as int, (key, value));
                    lemma_map_of_present(entries@, i as int);
                }
                entries.set(i, (key, value));
            },
            None => {
                let ghost before = entries@;
                proof {
                    lemma_map_of_absent(entries@, key@);
                }
                entries.push((key, value));
                proof {
                    assert(entries@.drop_last() =~= before);
                    assert forall|a: int, b: int| 0 <= a < b < entries@.len() implies (
                    #[trigger] entries@[a]).0@ != (#[trigger] entries@[b]).0@ by {
                        assert(entries@[a] == before[a]);
                    }
                }
            },
        }
        self.entries = entries;
    }
}

/// A map of texts by their views.
pub open spec fn texts(m: Map<Seq<char>, String>) -> Map<Seq<char>, Seq<char>> {
    m.map_values(|s: String| s@)
}

pub proof fn lemma_texts_insert(m: Map<Seq<char>, String>, key: Seq<char>, value: String)
    ensures
        texts(m.insert(key, value)) == texts(m).insert(key, value@),
{
    assert(texts(m.insert(key, value)) =~= texts(m).insert(key, value@));
}

pub proof fn lemma_texts_union(a: Map<Seq<char>, String>, b: Map<Seq<char>, String>)
    ensures
        texts(a.union_prefer_right(b)) == texts(a).union_prefer_right(texts(b)),
{
    assert(texts(a.union_prefer_right(b)) =~= texts(a).union_prefer_right(texts(b)));
}

impl StringMap<String> {
    /// Sets the text of `key`.
    pub fn set(&mut self, key: &str, value: &str)
        ensures
            texts(final(self)@) == texts(old(self)@).insert(key@, value@),
    {
        let v = value.to_owned();
        proof {
            lemma_texts_insert(self@, key@, v);
        }
        self.insert(key.to_owned(), v);
    }

    /// Adds the entries of another map, which win over the ones that are there.
    pub fn extend(&mut self, other: &StringMap<String>)
        ensures
            final(self)@ == old(self)@.union_prefer_right(other@),
    {
        let ghost start = self@;
        let mut i: usize = 0;
        assert(start.union_prefer_right(map_of(other.order().take(0))) =~= start);
        while i < other.len()
            invariant
                i <= other.order().len(),
                self@ == start.union_prefer_right(map_of(other.order().take(i as int))),
            decreases other.order().len() - i,
        {
            let entry = other.entry(i);
            proof {
                let seen = other.order().take(i as int);
                assert(other.order().take(i + 1).drop_last() =~= seen);
                assert(start.union_prefer_right(map_of(seen).insert(entry.0@, entry.1))
                    =~= start.union_prefer_right(map_of(seen)).insert(entry.0@, entry.1));
            }
            self.insert(entry.0.clone(), entry.1.clone());
            i += 1;
        }
        proof {
            assert(other.order().take(other.order().len() as int) =~= other.order());
            other.lemma_view();
        }
    }

    /// A map with the same entries in the same order.
    pub fn copy(&self) -> (r: Self)
        ensures
            r@ == self@,
            r.order() == self.order(),
    {
        proof {
            use_type_invariant(self);
        }
        let mut entries: Vec<(String, String)> = Vec::new();
        let mut i: usize = 0;
        while i < self.entries.len()
            invariant
                i <= self.entries@.len(),
                entries@ == self.entries@.take(i as int),
            decreases self.entries@.len() - i,
        {
            entries.push((self.entries[i].0.clone(), self.entries[i].1.clone()));
            assert(self.entries@.take(i + 1) =~= self.entries@.take(i as int).push(
                self.entries@[i as int],
            ));
            i += 1;
        }
        assert(entries@ =~= self.entries@);
        StringMap { entries }
    }
}

} // verus!
