//! A small map keyed by text.

use crate::text;
use vstd::prelude::*;

verus! {

broadcast use vstd::string::group_string_axioms;

/// A map from text to values. Every key occurs once.
#[derive(Debug)]
pub struct TextMap<V> {
    entries: Vec<(String, V)>,
}

/// Whether no key occurs twice.
pub open spec fn distinct<K: View, V>(entries: Seq<(K, V)>) -> bool {
    forall|i: int, j: int|
        #![trigger entries[i], entries[j]]
        0 <= i < j < entries.len() ==> entries[i].0@ != entries[j].0@
}

/// Whether some entry has the key.
pub open spec fn holds<K: View, V>(entries: Seq<(K, V)>, key: K::V) -> bool {
    exists|i: int| 0 <= i < entries.len() && (#[trigger] entries[i]).0@ == key
}

/// The position of the entry with the key.
pub open spec fn position<K: View, V>(entries: Seq<(K, V)>, key: K::V) -> int {
    choose|i: int| 0 <= i < entries.len() && (#[trigger] entries[i]).0@ == key
}

/// The entries as a map.
pub open spec fn as_map<K: View, V>(entries: Seq<(K, V)>) -> Map<K::V, V> {
    Map::new(
        |key: K::V| holds(entries, key),
        |key: K::V| entries[position(entries, key)].1,
    )
}

pub(crate) proof fn lemma_position<K: View, V>(entries: Seq<(K, V)>, i: int)
    requires
        distinct(entries),
        0 <= i < entries.len(),
    ensures
        holds(entries, entries[i].0@),
        position(entries, entries[i].0@) == i,
        as_map(entries).contains_key(entries[i].0@),
        as_map(entries)[entries[i].0@] == entries[i].1,
{
    let key = entries[i].0@;
    assert(holds(entries, key));
    let k = position(entries, key);
    assert(0 <= k < entries.len() && entries[k].0@ == key);
}

pub(crate) proof fn lemma_pushed<K: View, V>(before: Seq<(K, V)>, entry: (K, V))
    requires
        distinct(before),
        !holds(before, entry.0@),
    ensures
        distinct(before.push(entry)),
        as_map(before.push(entry)) == as_map(before).insert(entry.0@, entry.1),
{
    let after = before.push(entry);
    assert forall|i: int, j: int|
        #![trigger after[i], after[j]]
        0 <= i < j < after.len() implies after[i].0@ != after[j].0@ by {
        if j == before.len() {
            assert(before[i].0@ != entry.0@);
        }
    }
    assert forall|k: K::V| #[trigger]
        as_map(after).contains_key(k) <==> as_map(before).insert(entry.0@, entry.1).contains_key(
            k,
        ) by {
        if holds(after, k) {
            let i = position(after, k);
            if i < before.len() {
                assert(before[i].0@ == k);
            }
        }
        if holds(before, k) {
            let i = position(before, k);
            assert(after[i].0@ == k);
        }
        if k == entry.0@ {
            assert(after[before.len() as int].0@ == k);
        }
    }
    assert forall|k: K::V| #[trigger] as_map(after).contains_key(k) implies as_map(after)[k]
        == as_map(before).insert(entry.0@, entry.1)[k] by {
        let i = position(after, k);
        lemma_position(after, i);
        if i < before.len() {
            lemma_position(before, i);
        }
    }
    assert(as_map(after) =~= as_map(before).insert(entry.0@, entry.1));
}

pub(crate) proof fn lemma_removed<K: View, V>(before: Seq<(K, V)>, i: int)
    requires
        distinct(before),
        0 <= i < before.len(),
    ensures
        distinct(before.remove(i)),
        !holds(before.remove(i), before[i].0@),
        as_map(before.remove(i)) == as_map(before).remove(before[i].0@),
{
    let after = before.remove(i);
    let key = before[i].0@;
    assert forall|k: int| 0 <= k < after.len() implies #[trigger] after[k] == before[if k < i {
        k
    } else {
        k + 1
    }] by {}
    assert forall|a: int, b: int|
        #![trigger after[a], after[b]]
        0 <= a < b < after.len() implies after[a].0@ != after[b].0@ by {}
    assert forall|k: K::V| #[trigger]
        as_map(after).contains_key(k) <==> as_map(before).remove(key).contains_key(k) by {
        if holds(after, k) {
            let a = position(after, k);
            let b = if a < i {
                a
            } else {
                a + 1
            };
            assert(before[b].0@ == k);
            lemma_position(before, b);
            lemma_position(before, i);
        }
        if holds(before, k) && k != key {
            let a = position(before, k);
            if a < i {
                assert(after[a].0@ == k);
            } else {
                assert(after[a - 1].0@ == k);
            }
        }
    }
    assert forall|k: K::V| #[trigger] as_map(after).contains_key(k) implies as_map(after)[k]
        == as_map(before).remove(key)[k] by {
        let a = position(after, k);
        lemma_position(after, a);
        lemma_position(
            before,
            if a < i {
                a
            } else {
                a + 1
            },
        );
    }
    assert(as_map(after) =~= as_map(before).remove(key));
    assert(!as_map(after).contains_key(key));
}

impl<V> View for TextMap<V> {
    type V = Map<Seq<char>, V>;

    closed spec fn view(&self) -> Map<Seq<char>, V> {
        as_map(self.entries@)
    }
}

impl<V> TextMap<V> {
    #[verifier::type_invariant]
    spec fn keyed(&self) -> bool {
        distinct(self.entries@)
    }

    /// An empty map.
    pub fn new() -> (r: TextMap<V>)
        ensures
            r@ == Map::<Seq<char>, V>::empty(),
    {
        let map = TextMap { entries: Vec::new() };
        proof {
            assert(map@ =~= Map::<Seq<char>, V>::empty());
        }
        map
    }

    fn find(&self, key: &str) -> (r: Option<usize>)
        ensures
            match r {
                Some(i) => i < self.entries@.len() && self.entries@[i as int].0@ == key@
                    && self@.contains_key(key@) && self@[key@] == self.entries@[i as int].1,
                None => !self@.contains_key(key@) && !holds(self.entries@, key@),
            },
    {
        proof {
            use_type_invariant(self);
        }
        let mut i: usize = 0;
        while i < self.entries.len()
            invariant
                i <= self.entries@.len(),
                distinct(self.entries@),
                forall|k: int| 0 <= k < i ==> (#[trigger] self.entries@[k]).0@ != key@,
            decreases self.entries@.len() - i,
        {
            if text::same(self.entries[i].0.as_str(), key) {
                proof {
                    lemma_position(self.entries@, i as int);
                }
                return Some(i);
            }
            i = i + 1;
        }
        None
    }

    /// The value of a key.
    pub fn get(&self, key: &str) -> (r: Option<&V>)
        ensures
            match r {
                Some(value) => self@.contains_key(key@) && *value == self@[key@],
                None => !self@.contains_key(key@),
            },
    {
        match self.find(key) {
            Some(i) => Some(&self.entries[i].1),
            None => None,
        }
    }

    /// Whether the map has a key.
    pub fn contains(&self, key: &str) -> (r: bool)
        ensures
            r == self@.contains_key(key@),
    {
        self.find(key).is_some()
    }

    /// Whether the map has no entries.
    pub fn is_empty(&self) -> (r: bool)
        ensures
            r == (self@ == Map::<Seq<char>, V>::empty()),
    {
        let empty = self.entries.len() == 0;
        proof {
            use_type_invariant(self);
            if empty {
                assert(self@ =~= Map::<Seq<char>, V>::empty());
            } else {
                lemma_position(self.entries@, 0);
            }
        }
        empty
    }

    /// Removes a key and hands back its value.
    pub fn remove(&mut self, key: &str) -> (r: Option<V>)
        ensures
            final(self)@ == old(self)@.remove(key@),
            r == if old(self)@.contains_key(key@) {
                Some(old(self)@[key@])
            } else {
                None
            },
    {
        proof {
            use_type_invariant(&*self);
        }
        match self.find(key) {
            Some(i) => {
                let mut entries: Vec<(String, V)> = Vec::new();
                std::mem::swap(&mut entries, &mut self.entries);
                proof {
                    lemma_removed(entries@, i as int);
                }
                let (_, value) = entries.remove(i);
                self.entries = entries;
                Some(value)
            },
            None => {
                proof {
                    assert(self@.remove(key@) =~= self@);
                }
                None
            },
        }
    }

    /// Sets the value of a key.
    pub fn insert(&mut self, key: String, value: V)
        ensures
            final(self)@ == old(self)@.insert(key@, value),
    {
        let ghost before = self@;
        let _ = self.remove(key.as_str());
        proof {
            use_type_invariant(&*self);
            assert(!self@.contains_key(key@));
        }
        let mut entries: Vec<(String, V)> = Vec::new();
        std::mem::swap(&mut entries, &mut self.entries);
        let ghost rest = entries@;
        proof {
            assert(!holds(rest, key@)) by {
                assert(!as_map(rest).contains_key(key@));
            }
            lemma_pushed(rest, (key, value));
        }
        entries.push((key, value));
        self.entries = entries;
        proof {
            assert(before.remove(key@).insert(key@, value) =~= before.insert(key@, value));
        }
    }

    /// The keys, each once.
    pub fn keys(&self) -> (r: Vec<String>)
        ensures
            forall|k: Seq<char>| #[trigger] self@.contains_key(k) <==> text::views(r@).contains(k),
            text::views(r@).no_duplicates(),
    {
        proof {
            use_type_invariant(self);
        }
        let mut keys: Vec<String> = Vec::new();
        let mut i: usize = 0;
        while i < self.entries.len()
            invariant
                i <= self.entries@.len(),
                keys@.len() == i,
                forall|k: int| 0 <= k < i ==> (#[trigger] keys@[k])@ == self.entries@[k].0@,
            decreases self.entries@.len() - i,
        {
            keys.push(self.entries[i].0.clone());
            i = i + 1;
        }
        proof {
            let views = text::views(keys@);
            assert forall|k: Seq<char>| #[trigger]
                self@.contains_key(k) <==> views.contains(k) by {
                if self@.contains_key(k) {
                    let p = position(self.entries@, k);
                    assert(self.entries@[p].0@ == k);
                    assert(views[p] == k);
                }
                if views.contains(k) {
                    let p = choose|p: int| 0 <= p < views.len() && views[p] == k;
                    assert(self.entries@[p].0@ == k);
                }
            }
            assert forall|a: int, b: int|
                0 <= a < views.len() && 0 <= b < views.len() && a != b implies views[a]
                != views[b] by {
                if a < b {
                    assert(self.entries@[a].0@ != self.entries@[b].0@);
                } else {
                    assert(self.entries@[b].0@ != self.entries@[a].0@);
                }
            }
        }
        keys
    }
}

} // verus!
