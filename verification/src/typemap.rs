//! A store keyed by type identity: at most one value per `TypeId`.

use std::any::TypeId;
use vstd::prelude::*;

verus! {

/// `std::any::TypeId`, carried through as an opaque key.
#[verifier::external_type_specification]
#[verifier::external_body]
pub struct ExTypeId(TypeId);

/// Trusted: `TypeId`'s `==` from std. Two identifiers compare equal exactly
/// when they are the same identifier.
#[verifier::external_body]
fn same_key(a: &TypeId, b: &TypeId) -> (same: bool)
    ensures
        same == (*a == *b),
{
    *a == *b
}

/// One registered value together with the key it is stored under.
struct Entry<V> {
    key: TypeId,
    value: V,
}

/// No key occurs twice among `entries`.
spec fn distinct_keys<V>(entries: Seq<Entry<V>>) -> bool {
    forall|i: int, j: int|
        0 <= i < j < entries.len() ==> (#[trigger] entries[i]).key != (#[trigger] entries[j]).key
}

/// Some entry of `entries` is stored under `key`.
spec fn holds_key<V>(entries: Seq<Entry<V>>, key: TypeId) -> bool {
    exists|i: int| 0 <= i < entries.len() && (#[trigger] entries[i]).key == key
}

/// A position in `entries` at which `key` is stored, where there is one.
spec fn position_of<V>(entries: Seq<Entry<V>>, key: TypeId) -> int {
    choose|i: int| 0 <= i < entries.len() && (#[trigger] entries[i]).key == key
}

/// The mapping that a list of entries stands for.
spec fn as_map<V>(entries: Seq<Entry<V>>) -> Map<TypeId, V> {
    Map::new(
        |key: TypeId| holds_key(entries, key),
        |key: TypeId| entries[position_of(entries, key)].value,
    )
}

/// With distinct keys, the entry at position `i` is what the mapping holds
/// under that entry's key.
proof fn lemma_as_map_at<V>(entries: Seq<Entry<V>>, i: int)
    requires
        distinct_keys(entries),
        0 <= i < entries.len(),
    ensures
        as_map(entries).contains_key(entries[i].key),
        as_map(entries)[entries[i].key] == entries[i].value,
{
    let key = entries[i].key;
    assert(holds_key(entries, key));
    let p = position_of(entries, key);
    assert(entries[p].key == key);
    if p < i {
        assert(entries[p].key != entries[i].key);
    } else if i < p {
        assert(entries[i].key != entries[p].key);
    }
}

/// Replacing the value at position `i` is an insertion under that position's
/// key.
proof fn lemma_as_map_update<V>(entries: Seq<Entry<V>>, i: int, value: V)
    requires
        distinct_keys(entries),
        0 <= i < entries.len(),
    ensures
        distinct_keys(entries.update(i, (Entry { key: entries[i].key, value }))),
        as_map(entries.update(i, (Entry { key: entries[i].key, value }))) == as_map(
            entries,
        ).insert(entries[i].key, value),
{
    let key = entries[i].key;
    let after = entries.update(i, Entry { key, value });
    assert forall|a: int, b: int| 0 <= a < b < after.len() implies (#[trigger] after[a]).key != (
    #[trigger] after[b]).key by {
        assert(after[a].key == entries[a].key);
        assert(after[b].key == entries[b].key);
    }
    assert forall|k: TypeId| holds_key(after, k) == holds_key(entries, k) by {
        if holds_key(after, k) {
            let p = position_of(after, k);
            assert(entries[p].key == k);
        }
        if holds_key(entries, k) {
            let p = position_of(entries, k);
            assert(after[p].key == k);
        }
    }
    assert forall|k: TypeId| holds_key(after, k) implies #[trigger] as_map(after)[k] == as_map(
        entries,
    ).insert(key, value)[k] by {
        let p = position_of(after, k);
        lemma_as_map_at(after, p);
        if k != key {
            lemma_as_map_at(entries, p);
        }
    }
    assert(holds_key(entries, key));
    assert(as_map(after) =~= as_map(entries).insert(key, value));
}

/// Appending an entry under a key that is not yet stored is an insertion.
proof fn lemma_as_map_push<V>(entries: Seq<Entry<V>>, entry: Entry<V>)
    requires
        distinct_keys(entries),
        !holds_key(entries, entry.key),
    ensures
        distinct_keys(entries.push(entry)),
        as_map(entries.push(entry)) == as_map(entries).insert(entry.key, entry.value),
{
    let after = entries.push(entry);
    assert forall|a: int, b: int| 0 <= a < b < after.len() implies (#[trigger] after[a]).key != (
    #[trigger] after[b]).key by {
        assert(after[a] == entries[a]);
        if b < entries.len() {
            assert(after[b] == entries[b]);
        }
    }
    assert(after[entries.len() as int].key == entry.key);
    assert forall|k: TypeId| holds_key(after, k) == (k == entry.key || holds_key(entries, k)) by {
        if holds_key(after, k) {
            let p = position_of(after, k);
            if p < entries.len() {
                assert(entries[p].key == k);
            }
        }
        if holds_key(entries, k) {
            let p = position_of(entries, k);
            assert(after[p].key == k);
        }
    }
    assert forall|k: TypeId| holds_key(after, k) implies #[trigger] as_map(after)[k] == as_map(
        entries,
    ).insert(entry.key, entry.value)[k] by {
        let p = position_of(after, k);
        lemma_as_map_at(after, p);
        if k != entry.key {
            assert(after[p] == entries[p]);
            lemma_as_map_at(entries, p);
        }
    }
    assert(as_map(after) =~= as_map(entries).insert(entry.key, entry.value));
}

/// A mapping from type keys to values. Writing under a key that is already
/// present replaces the value: the last write wins. The entries are kept in a
/// vector and found by comparing keys, so a lookup takes time linear in the
/// number of keys.
pub struct TypeMap<V> {
    entries: Vec<Entry<V>>,
}

impl<V> View for TypeMap<V> {
    type V = Map<TypeId, V>;

    closed spec fn view(&self) -> Map<TypeId, V> {
        as_map(self.entries@)
    }
}

impl<V> TypeMap<V> {
    /// The representation invariant: every key is stored once.
    pub closed spec fn wf(&self) -> bool {
        distinct_keys(self.entries@)
    }

    /// An empty store.
    pub fn new() -> (store: TypeMap<V>)
        ensures
            store.wf(),
            store@ == Map::<TypeId, V>::empty(),
    {
        let store = TypeMap { entries: Vec::new() };
        assert(store@ =~= Map::<TypeId, V>::empty());
        store
    }

    /// The position of `key` among the entries.
    fn find(&self, key: &TypeId) -> (found: Option<usize>)
        requires
            self.wf(),
        ensures
            match found {
                Some(i) => i < self.entries@.len() && self.entries@[i as int].key == *key,
                None => !holds_key(self.entries@, *key),
            },
    {
        let mut i: usize = 0;
        while i < self.entries.len()
            invariant
                i <= self.entries@.len(),
                forall|j: int| 0 <= j < i ==> (#[trigger] self.entries@[j]).key != *key,
            decreases self.entries@.len() - i,
        {
            if same_key(&self.entries[i].key, key) {
                return Some(i);
            }
            i = i + 1;
        }
        None
    }

    /// Whether a value is registered under `key`.
    pub fn has(&self, key: TypeId) -> (present: bool)
        requires
            self.wf(),
        ensures
            present == self@.contains_key(key),
    {
        self.find(&key).is_some()
    }

    /// The value registered under `key`, if there is one.
    pub fn get(&self, key: TypeId) -> (slot: Option<&V>)
        requires
            self.wf(),
        ensures
            match slot {
                Some(value) => self@.contains_key(key) && *value == self@[key],
                None => !self@.contains_key(key),
            },
    {
        match self.find(&key) {
            Some(i) => {
                proof {
                    lemma_as_map_at(self.entries@, i as int);
                }
                Some(&self.entries[i].value)
            },
            None => None,
        }
    }

    /// Exclusive access to the value registered under `key`, if there is one:
    /// what the caller leaves behind the reference is what the store then
    /// holds under `key`.
    pub fn get_mut(&mut self, key: TypeId) -> (slot: Option<&mut V>)
        requires
            old(self).wf(),
        ensures
            final(self).wf(),
            match slot {
                Some(value) => old(self)@.contains_key(key) && *value == old(self)@[key]
                    && final(self)@ == old(self)@.insert(key, *final(value)),
                None => !old(self)@.contains_key(key) && final(self)@ == old(self)@,
            },
    {
        match self.find(&key) {
            Some(i) => {
                proof {
                    lemma_as_map_at(self.entries@, i as int);
                    assert forall|value: V| #![auto]
                        distinct_keys(self.entries@.update(i as int, (Entry { key, value })))
                        && as_map(self.entries@.update(i as int, (Entry { key, value })))
                        == as_map(self.entries@).insert(key, value) by {
                        lemma_as_map_update(self.entries@, i as int, value);
                    }
                }
                Some(&mut self.entries[i].value)
            },
            None => None,
        }
    }

    /// Registers `value` under `key`, in place of what was there.
    pub fn set(&mut self, key: TypeId, value: V)
        requires
            old(self).wf(),
        ensures
            final(self).wf(),
            final(self)@ == old(self)@.insert(key, value),
    {
        match self.find(&key) {
            Some(i) => {
                proof {
                    lemma_as_map_update(self.entries@, i as int, value);
                }
                self.entries[i] = Entry { key, value };
            },
            None => {
                proof {
                    lemma_as_map_push(self.entries@, Entry { key, value });
                }
                self.entries.push(Entry { key, value });
            },
        }
    }
}

/// Identity safety: a value written under one key is never what a lookup
/// under another key finds. That lookup finds what it found before the write.
pub proof fn lemma_write_leaves_other_keys<V>(
    before: TypeMap<V>,
    after: TypeMap<V>,
    written: TypeId,
    value: V,
    other: TypeId,
)
    requires
        after@ == before@.insert(written, value),
        other != written,
    ensures
        after@.contains_key(written) && after@[written] == value,
        after@.contains_key(other) == before@.contains_key(other),
        before@.contains_key(other) ==> after@[other] == before@[other],
{
}

} // verus!
