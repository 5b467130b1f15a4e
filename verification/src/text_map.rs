//! A map from texts to values that keeps its keys in the order in which they
//! first came.

use vstd::prelude::*;
use crate::text::{same_text, views, lemma_views_push, lemma_views_update};

verus! {

/// The index of the first of `keys` that equals `key`.
pub open spec fn find_key(keys: Seq<Seq<char>>, key: Seq<char>) -> Option<int>
    decreases keys.len(),
{
    if keys.len() == 0 {
        None
    } else {
        match find_key(keys.drop_last(), key) {
            Some(i) => Some(i),
            None => if keys.last() == key {
                Some(keys.len() - 1)
            } else {
                None
            },
        }
    }
}

/// `find_key` gives the first index at which `key` stands, and nothing
/// exactly when it stands nowhere.
pub proof fn lemma_find_key(keys: Seq<Seq<char>>, key: Seq<char>)
    ensures
        match find_key(keys, key) {
            Some(i) => 0 <= i < keys.len() && keys[i] == key && forall|j: int|
                0 <= j < i ==> keys[j] != key,
            None => forall|j: int| 0 <= j < keys.len() ==> keys[j] != key,
        },
    decreases keys.len(),
{
    if keys.len() > 0 {
        lemma_find_key(keys.drop_last(), key);
        match find_key(keys.drop_last(), key) {
            Some(i) => {
                assert(keys.drop_last()[i] == keys[i]);
                assert forall|j: int| 0 <= j < i implies keys[j] != key by {
                    assert(keys.drop_last()[j] == keys[j]);
                }
            },
            None => {
                assert forall|j: int| 0 <= j < keys.len() - 1 implies keys[j] != key by {
                    assert(keys.drop_last()[j] == keys[j]);
                }
            },
        }
    }
}

/// No text stands twice among `keys`.
pub open spec fn distinct_keys(keys: Seq<Seq<char>>) -> bool {
    forall|i: int, j: int| 0 <= i < j < keys.len() ==> keys[i] != keys[j]
}

/// What a map from texts holds: the keys as texts, and under each its value.
pub struct TextMapView<V> {
    pub keys: Seq<Seq<char>>,
    pub values: Seq<V>,
}

impl<V> TextMapView<V> {
    /// The value that stands under `key`.
    pub open spec fn lookup(self, key: Seq<char>) -> Option<V> {
        match find_key(self.keys, key) {
            Some(i) => Some(self.values[i]),
            None => None,
        }
    }

    /// The map with `value` under `key`: in the place of the value that stood
    /// there, or with the key behind all others.
    pub open spec fn upsert(self, key: Seq<char>, value: V) -> TextMapView<V> {
        match find_key(self.keys, key) {
            Some(i) => TextMapView { keys: self.keys, values: self.values.update(i, value) },
            None => TextMapView { keys: self.keys.push(key), values: self.values.push(value) },
        }
    }

    /// Each key has its value, and no key stands twice.
    pub open spec fn wf(self) -> bool {
        &&& self.keys.len() == self.values.len()
        &&& distinct_keys(self.keys)
    }
}

/// Putting a value under a key keeps the map well formed, and the key is then
/// found where the value stands.
pub proof fn lemma_upsert<V>(map: TextMapView<V>, key: Seq<char>, value: V)
    requires
        map.wf(),
    ensures
        map.upsert(key, value).wf(),
        map.upsert(key, value).lookup(key) == Some(value),
        forall|other: Seq<char>| other != key ==> map.upsert(key, value).lookup(other) == map.lookup(other),
{
    lemma_find_key(map.keys, key);
    let after = map.upsert(key, value);
    lemma_find_key(after.keys, key);
    assert forall|other: Seq<char>| other != key implies after.lookup(other) == map.lookup(
        other,
    ) by {
        lemma_find_key(map.keys, other);
        lemma_find_key(after.keys, other);
        if find_key(map.keys, key) is None {
            assert(after.keys.drop_last() =~= map.keys);
        }
    }
}

/// The map with each value replaced by its view.
pub open spec fn deep<V: View>(map: TextMapView<V>) -> TextMapView<V::V> {
    TextMapView { keys: map.keys, values: views(map.values) }
}

/// Putting a value under a key, seen through the views of the values.
pub proof fn lemma_deep_upsert<V: View>(map: TextMapView<V>, key: Seq<char>, value: V)
    requires
        map.wf(),
    ensures
        deep(map.upsert(key, value)) == deep(map).upsert(key, value@),
{
    lemma_find_key(map.keys, key);
    match find_key(map.keys, key) {
        Some(i) => {
            lemma_views_update(map.values, i, value);
        },
        None => {
            lemma_views_push(map.values, value);
        },
    }
}

/// Looking a key up, seen through the views of the values.
pub proof fn lemma_deep_lookup<V: View>(map: TextMapView<V>, key: Seq<char>)
    requires
        map.wf(),
    ensures
        deep(map).lookup(key) == match map.lookup(key) {
            Some(v) => Some(v@),
            None => None,
        },
{
    lemma_find_key(map.keys, key);
}

/// A map from texts to values, as two lists side by side.
#[derive(Debug)]
pub struct TextMap<V> {
    pub keys: Vec<String>,
    pub values: Vec<V>,
}

impl<V: View> TextMap<V> {
    /// What the map holds, each value by its view.
    pub open spec fn deep_model(&self) -> TextMapView<V::V> {
        deep(self.model())
    }
}

impl<V> TextMap<V> {
    /// Each key has its value, and no key stands twice.
    pub open spec fn wf(&self) -> bool {
        &&& self.keys@.len() == self.values@.len()
        &&& distinct_keys(views(self.keys@))
    }

    /// The keys, as texts.
    pub open spec fn key_texts(&self) -> Seq<Seq<char>> {
        views(self.keys@)
    }

    /// What the map holds.
    pub open spec fn model(&self) -> TextMapView<V> {
        TextMapView { keys: views(self.keys@), values: self.values@ }
    }

    /// The value that stands under `key`.
    pub open spec fn lookup(&self, key: Seq<char>) -> Option<V> {
        self.model().lookup(key)
    }

    /// The map without any key.
    pub fn new() -> (r: Self)
        ensures
            r.wf(),
            r.keys@.len() == 0,
            r.values@.len() == 0,
    {
        TextMap { keys: Vec::new(), values: Vec::new() }
    }

    /// How many keys the map holds.
    pub fn len(&self) -> (r: usize)
        ensures
            r == self.keys@.len(),
    {
        self.keys.len()
    }

    /// Where `key` stands.
    pub fn position(&self, key: &str) -> (r: Option<usize>)
        requires
            self.wf(),
        ensures
            match r {
                Some(i) => find_key(self.key_texts(), key@) == Some(i as int) && i
                    < self.keys@.len(),
                None => find_key(self.key_texts(), key@) is None,
            },
    {
        let mut i: usize = 0;
        while i < self.keys.len()
            invariant
                i <= self.keys@.len(),
                forall|j: int| 0 <= j < i ==> self.key_texts()[j] != key@,
            decreases self.keys@.len() - i,
        {
            if same_text(self.keys[i].as_str(), key) {
                proof {
                    lemma_find_key(self.key_texts(), key@);
                    assert(self.key_texts()[i as int] == key@);
                }
                return Some(i);
            }
            i += 1;
        }
        proof {
            lemma_find_key(self.key_texts(), key@);
        }
        None
    }

    /// The value under `key`.
    pub fn get(&self, key: &str) -> (r: Option<&V>)
        requires
            self.wf(),
        ensures
            match r {
                Some(v) => self.lookup(key@) == Some(*v),
                None => self.lookup(key@) is None,
            },
    {
        match self.position(key) {
            Some(i) => Some(&self.values[i]),
            None => None,
        }
    }

    /// Puts `value` under `key`: in the place of the value that stood there,
    /// or with the key behind all others.
    pub fn insert(&mut self, key: String, value: V)
        requires
            old(self).wf(),
        ensures
            final(self).wf(),
            final(self).model() == old(self).model().upsert(key@, value),
    {
        match self.position(key.as_str()) {
            Some(i) => {
                self.values[i] = value;
            },
            None => {
                proof {
                    lemma_find_key(self.key_texts(), key@);
                    lemma_views_push(self.keys@, key);
                }
                self.keys.push(key);
                self.values.push(value);
            },
        }
    }
}

} // verus!
