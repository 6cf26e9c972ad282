//! A store that keeps its values in memory.

use crate::error::KvsError;
use crate::kvs::KeyValueStore;
use crate::task::Existence;
use vstd::prelude::*;

verus! {

/// A key with its value.
#[derive(Debug)]
struct Entry {
    key: Vec<u8>,
    value: Vec<u8>,
}

/// A store that keeps its values in memory: each key at most once, with the value that was
/// written last.
#[derive(Debug)]
pub struct MemoryStore {
    entries: Vec<Entry>,
}

/// The entry at position `i` has the key `k`.
spec fn key_at(entries: Seq<Entry>, i: int, k: Seq<u8>) -> bool {
    0 <= i < entries.len() && entries[i].key@ == k
}

/// Some entry has the key `k`.
spec fn has_key(entries: Seq<Entry>, k: Seq<u8>) -> bool {
    exists|i: int| key_at(entries, i, k)
}

/// The position of an entry with the key `k`.
spec fn position_of(entries: Seq<Entry>, k: Seq<u8>) -> int {
    choose|i: int| key_at(entries, i, k)
}

/// No two entries have the same key.
spec fn distinct_keys(entries: Seq<Entry>) -> bool {
    forall|i: int, j: int, k: Seq<u8>|
        #![trigger key_at(entries, i, k), key_at(entries, j, k)]
        key_at(entries, i, k) && key_at(entries, j, k) ==> i == j
}

/// The keys of the entries with their values.
spec fn contents(entries: Seq<Entry>) -> Map<Seq<u8>, Seq<u8>> {
    Map::new(
        |k: Seq<u8>| has_key(entries, k),
        |k: Seq<u8>| entries[position_of(entries, k)].value@,
    )
}

/// An entry with a new key, added at the end, is a new key in the contents.
proof fn lemma_contents_push(entries: Seq<Entry>, entry: Entry)
    requires
        distinct_keys(entries),
        !has_key(entries, entry.key@),
    ensures
        distinct_keys(entries.push(entry)),
        contents(entries.push(entry)) == contents(entries).insert(entry.key@, entry.value@),
{
    let after = entries.push(entry);
    let last = entries.len() as int;
    assert forall|i: int, k: Seq<u8>| key_at(after, i, k) implies if i == last {
        k == entry.key@
    } else {
        key_at(entries, i, k)
    } by {}
    assert forall|i: int, k: Seq<u8>| key_at(entries, i, k) implies key_at(after, i, k) by {}
    assert(key_at(after, last, entry.key@));
    assert forall|k: Seq<u8>| has_key(after, k) <==> (k == entry.key@ || has_key(entries, k)) by {
        if has_key(after, k) {
            let i = position_of(after, k);
            assert(key_at(after, i, k));
        }
        if has_key(entries, k) {
            let i = position_of(entries, k);
            assert(key_at(after, i, k));
        }
    }
    assert forall|k: Seq<u8>| has_key(after, k) implies #[trigger] contents(after)[k] == contents(
        entries,
    ).insert(entry.key@, entry.value@)[k] by {
        let i = position_of(after, k);
        assert(key_at(after, i, k));
        if k != entry.key@ {
            let j = position_of(entries, k);
            assert(key_at(entries, j, k));
            assert(key_at(after, j, k));
        }
    }
    assert(contents(after) =~= contents(entries).insert(entry.key@, entry.value@));
}

/// A new value for the entry at position `at` is a new value for its key in the contents.
proof fn lemma_contents_update(entries: Seq<Entry>, at: int, entry: Entry)
    requires
        distinct_keys(entries),
        0 <= at < entries.len(),
        entry.key@ == entries[at].key@,
    ensures
        distinct_keys(entries.update(at, entry)),
        contents(entries.update(at, entry)) == contents(entries).insert(
            entry.key@,
            entry.value@,
        ),
{
    let after = entries.update(at, entry);
    assert forall|i: int, k: Seq<u8>| key_at(after, i, k) <==> key_at(entries, i, k) by {}
    assert(key_at(entries, at, entry.key@));
    assert forall|k: Seq<u8>| has_key(after, k) <==> has_key(entries, k) by {
        if has_key(after, k) {
            assert(key_at(entries, position_of(after, k), k));
        }
        if has_key(entries, k) {
            assert(key_at(after, position_of(entries, k), k));
        }
    }
    assert forall|k: Seq<u8>| has_key(after, k) implies #[trigger] contents(after)[k] == contents(
        entries,
    ).insert(entry.key@, entry.value@)[k] by {
        let i = position_of(after, k);
        let j = position_of(entries, k);
        assert(key_at(after, i, k));
        assert(key_at(entries, i, k));
        assert(key_at(entries, j, k));
        if k == entry.key@ {
            assert(i == at);
        }
    }
    assert(contents(after) =~= contents(entries).insert(entry.key@, entry.value@));
}

/// Without the entry at position `at`, the contents are without its key.
proof fn lemma_contents_remove(entries: Seq<Entry>, at: int)
    requires
        distinct_keys(entries),
        0 <= at < entries.len(),
    ensures
        distinct_keys(entries.remove(at)),
        contents(entries.remove(at)) == contents(entries).remove(entries[at].key@),
{
    let after = entries.remove(at);
    let gone = entries[at].key@;
    assert(key_at(entries, at, gone));
    assert forall|i: int, k: Seq<u8>| key_at(after, i, k) implies key_at(
        entries,
        if i < at {
            i
        } else {
            i + 1
        },
        k,
    ) by {}
    assert forall|i: int, k: Seq<u8>| key_at(entries, i, k) && i != at implies key_at(
        after,
        if i < at {
            i
        } else {
            i - 1
        },
        k,
    ) by {}
    assert forall|k: Seq<u8>| has_key(after, k) <==> (k != gone && has_key(entries, k)) by {
        if has_key(after, k) {
            let i = position_of(after, k);
            let before = if i < at {
                i
            } else {
                i + 1
            };
            assert(key_at(entries, before, k));
        }
        if k != gone && has_key(entries, k) {
            let i = position_of(entries, k);
            let now = if i < at {
                i
            } else {
                i - 1
            };
            assert(key_at(after, now, k));
        }
    }
    assert forall|k: Seq<u8>| has_key(after, k) implies #[trigger] contents(after)[k] == contents(
        entries,
    ).remove(gone)[k] by {
        let i = position_of(after, k);
        let j = position_of(entries, k);
        let before = if i < at {
            i
        } else {
            i + 1
        };
        assert(key_at(after, i, k));
        assert(key_at(entries, before, k));
        assert(key_at(entries, j, k));
    }
    assert(contents(after) =~= contents(entries).remove(gone));
}

/// Whether two byte strings are the same.
fn same_bytes(a: &[u8], b: &[u8]) -> (same: bool)
    ensures
        same == (a@ == b@),
{
    if a.len() != b.len() {
        return false;
    }
    let mut i: usize = 0;
    while i < a.len()
        invariant
            a.len() == b.len(),
            i <= a.len(),
            a@.take(i as int) == b@.take(i as int),
        decreases a.len() - i,
    {
        if a[i] != b[i] {
            return false;
        }
        i = i + 1;
        assert(a@.take(i as int) =~= a@.take(i - 1).push(a@[i - 1]));
        assert(b@.take(i as int) =~= b@.take(i - 1).push(b@[i - 1]));
    }
    assert(a@.take(a.len() as int) =~= a@);
    assert(b@.take(b.len() as int) =~= b@);
    true
}

impl View for MemoryStore {
    type V = Map<Seq<u8>, Seq<u8>>;

    closed spec fn view(&self) -> Map<Seq<u8>, Seq<u8>> {
        contents(self.entries@)
    }
}

impl MemoryStore {
    #[verifier::type_invariant]
    spec fn keys_once(self) -> bool {
        distinct_keys(self.entries@)
    }

    /// A store without keys.
    pub fn new() -> (store: Self)
        ensures
            store@ == Map::<Seq<u8>, Seq<u8>>::empty(),
    {
        let store = MemoryStore { entries: Vec::new() };
        assert(store@ =~= Map::<Seq<u8>, Seq<u8>>::empty()) by {
            assert forall|k: Seq<u8>| !has_key(store.entries@, k) by {
                if has_key(store.entries@, k) {
                    assert(key_at(store.entries@, position_of(store.entries@, k), k));
                }
            }
        }
        store
    }

    /// The number of keys.
    pub fn len(&self) -> (count: usize)
        ensures
            self@.dom().finite(),
            count == self@.dom().len(),
    {
        proof {
            use_type_invariant(self);
            lemma_contents_len(self.entries@);
        }
        self.entries.len()
    }

    /// Takes the entries out of the store, which is left without any.
    fn take_entries(&mut self) -> (entries: Vec<Entry>)
        ensures
            entries == old(self).entries,
            final(self).entries@.len() == 0,
    {
        let mut entries: Vec<Entry> = Vec::new();
        core::mem::swap(&mut self.entries, &mut entries);
        entries
    }

    /// The position of the entry with the given key.
    fn find(&self, key: &[u8]) -> (found: Option<usize>)
        ensures
            match found {
                Some(i) => key_at(self.entries@, i as int, key@),
                None => !has_key(self.entries@, key@),
            },
    {
        let mut i: usize = 0;
        while i < self.entries.len()
            invariant
                i <= self.entries.len(),
                forall|j: int| 0 <= j < i ==> !key_at(self.entries@, j, key@),
            decreases self.entries.len() - i,
        {
            if same_bytes(self.entries[i].key.as_slice(), key) {
                return Some(i);
            }
            i = i + 1;
        }
        assert(!has_key(self.entries@, key@)) by {
            if has_key(self.entries@, key@) {
                assert(key_at(self.entries@, position_of(self.entries@, key@), key@));
            }
        }
        None
    }
}

/// There are as many keys as entries.
proof fn lemma_contents_len(entries: Seq<Entry>)
    requires
        distinct_keys(entries),
    ensures
        contents(entries).dom().finite(),
        contents(entries).dom().len() == entries.len(),
    decreases entries.len(),
{
    if entries.len() == 0 {
        assert(contents(entries).dom() =~= Set::<Seq<u8>>::empty()) by {
            assert forall|k: Seq<u8>| !has_key(entries, k) by {
                if has_key(entries, k) {
                    assert(key_at(entries, position_of(entries, k), k));
                }
            }
        }
    } else {
        let front = entries.drop_last();
        let last = entries.last();
        assert forall|i: int, k: Seq<u8>| key_at(front, i, k) implies key_at(entries, i, k) by {}
        assert(distinct_keys(front));
        assert(!has_key(front, last.key@)) by {
            if has_key(front, last.key@) {
                let i = position_of(front, last.key@);
                assert(key_at(entries, i, last.key@));
                assert(key_at(entries, entries.len() - 1, last.key@));
            }
        }
        lemma_contents_len(front);
        lemma_contents_push(front, last);
        assert(front.push(last) =~= entries);
    }
}

impl KeyValueStore for MemoryStore {
    type OwnedValue = Vec<u8>;

    /// Writes `value` under `key`; the key was present if it held a value before.
    fn put(&mut self, key: &[u8], value: &[u8]) -> (r: Result<Existence, KvsError>)
        ensures
            final(self)@ == old(self)@.insert(key@, value@),
            r == Ok::<Existence, KvsError>(Existence::of(old(self)@.contains_key(key@))),
    {
        proof {
            use_type_invariant(&*self);
        }
        let entry = Entry {
            key: vstd::slice::slice_to_vec(key),
            value: vstd::slice::slice_to_vec(value),
        };
        let found = self.find(key);
        let mut entries = self.take_entries();
        match found {
            Some(i) => {
                proof {
                    lemma_contents_update(entries@, i as int, entry);
                }
                entries[i] = entry;
                self.entries = entries;
                Ok(Existence::new(true))
            },
            None => {
                proof {
                    lemma_contents_push(entries@, entry);
                }
                entries.push(entry);
                self.entries = entries;
                Ok(Existence::new(false))
            },
        }
    }

    /// Reads the value under `key`. The store stays as it is.
    fn get(&mut self, key: &[u8]) -> (r: Result<Option<Vec<u8>>, KvsError>)
        ensures
            final(self)@ == old(self)@,
            match r {
                Ok(Some(value)) => old(self)@.contains_key(key@) && value@ == old(self)@[key@],
                Ok(None) => !old(self)@.contains_key(key@),
                Err(_) => false,
            },
    {
        proof {
            use_type_invariant(&*self);
        }
        match self.find(key) {
            Some(i) => {
                proof {
                    let at = position_of(self.entries@, key@);
                    assert(key_at(self.entries@, at, key@));
                }
                Ok(Some(vstd::slice::slice_to_vec(self.entries[i].value.as_slice())))
            },
            None => Ok(None),
        }
    }

    /// Removes `key`; the key was present if it held a value.
    fn delete(&mut self, key: &[u8]) -> (r: Result<Existence, KvsError>)
        ensures
            final(self)@ == old(self)@.remove(key@),
            r == Ok::<Existence, KvsError>(Existence::of(old(self)@.contains_key(key@))),
    {
        proof {
            use_type_invariant(&*self);
        }
        match self.find(key) {
            Some(i) => {
                let mut entries = self.take_entries();
                proof {
                    lemma_contents_remove(entries@, i as int);
                }
                entries.remove(i);
                self.entries = entries;
                Ok(Existence::new(true))
            },
            None => {
                assert(self@.remove(key@) =~= self@);
                Ok(Existence::new(false))
            },
        }
    }
}

} // verus!
