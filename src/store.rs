use vstd::prelude::*;

use crate::codec::{bytes_equal, copy_bytes};
use crate::record::{RecordView, VehicleRecord};

verus! {

/// Why a store operation was refused. A refused operation changes nothing.
#[derive(Clone, Copy, Debug, PartialEq, Eq, Structural)]
pub enum StoreError {
    /// The store already holds as many records as it may.
    CapacityExceeded,
    /// The key is already present.
    KeyExists,
    /// The key is not present.
    NotFound,
}

/// One key and the record stored under it.
#[derive(Debug)]
struct StoreEntry {
    key: Vec<u8>,
    record: VehicleRecord,
}

/// The keys of a sequence of entries.
pub open spec fn keys_of(s: Seq<(Seq<u8>, RecordView)>) -> Seq<Seq<u8>> {
    s.map_values(|p: (Seq<u8>, RecordView)| p.0)
}

/// The map that a sequence of entries with distinct keys stands for.
pub open spec fn map_of(s: Seq<(Seq<u8>, RecordView)>) -> Map<Seq<u8>, RecordView> {
    Map::new(|k: Seq<u8>| keys_of(s).contains(k), |k: Seq<u8>| s[keys_of(s).index_of(k)].1)
}

/// Each entry of `s` maps its key to its record, and nothing else is mapped.
proof fn lemma_map_of(s: Seq<(Seq<u8>, RecordView)>)
    requires
        keys_of(s).no_duplicates(),
    ensures
        forall|i: int| 0 <= i < s.len() ==> #[trigger] map_of(s).contains_key(s[i].0) && map_of(s)[s[i].0] == s[i].1,
        forall|k: Seq<u8>| #[trigger] map_of(s).contains_key(k) <==> keys_of(s).contains(k),
        map_of(s).dom().finite(),
        map_of(s).dom().len() == s.len(),
{
    let keys = keys_of(s);
    assert forall|i: int| 0 <= i < s.len() implies #[trigger] map_of(s).contains_key(s[i].0) && map_of(s)[s[i].0] == s[i].1 by {
        assert(keys[i] == s[i].0);
        let j = keys.index_of(s[i].0);
        assert(keys[j] == s[i].0);
    }
    assert(map_of(s).dom() =~= keys.to_set());
    keys.unique_seq_to_set();
}

/// The map of a sequence with one more entry, whose key is new.
proof fn lemma_map_of_push(s: Seq<(Seq<u8>, RecordView)>, e: (Seq<u8>, RecordView))
    requires
        keys_of(s).no_duplicates(),
        !keys_of(s).contains(e.0),
    ensures
        keys_of(s.push(e)).no_duplicates(),
        map_of(s.push(e)) == map_of(s).insert(e.0, e.1),
{
    let p = s.push(e);
    assert(keys_of(p) =~= keys_of(s).push(e.0));
    assert forall|i: int, j: int| 0 <= i < p.len() && 0 <= j < p.len() && i != j implies keys_of(p)[i] != keys_of(p)[j] by {
        if i < s.len() && j < s.len() {
            assert(keys_of(s)[i] == keys_of(p)[i] && keys_of(s)[j] == keys_of(p)[j]);
        } else if i < s.len() {
            assert(keys_of(s)[i] == keys_of(p)[i]);
        } else {
            assert(keys_of(s)[j] == keys_of(p)[j]);
        }
    }
    lemma_map_of(s);
    lemma_map_of(p);
    assert forall|k: Seq<u8>| #[trigger] map_of(p).contains_key(k) <==> map_of(s).insert(e.0, e.1).contains_key(k) by {
        if keys_of(p).contains(k) {
            let i = choose|i: int| 0 <= i < p.len() && keys_of(p)[i] == k;
            if i < s.len() {
                assert(keys_of(s)[i] == k);
            }
        }
        if keys_of(s).contains(k) {
            let i = choose|i: int| 0 <= i < s.len() && keys_of(s)[i] == k;
            assert(keys_of(p)[i] == k);
        }
        if k == e.0 {
            assert(keys_of(p)[s.len() as int] == k);
        }
    }
    assert forall|k: Seq<u8>| #[trigger] map_of(p).contains_key(k) implies map_of(p)[k] == map_of(s).insert(e.0, e.1)[k] by {
        let i = choose|i: int| 0 <= i < p.len() && keys_of(p)[i] == k;
        assert(p[i].0 == k);
        if i < s.len() {
            assert(s[i] == p[i]);
        }
    }
    assert(map_of(p) =~= map_of(s).insert(e.0, e.1));
}

/// The map of a sequence with the entry at `i` taken out.
proof fn lemma_map_of_remove(s: Seq<(Seq<u8>, RecordView)>, i: int)
    requires
        keys_of(s).no_duplicates(),
        0 <= i < s.len(),
    ensures
        keys_of(s.remove(i)).no_duplicates(),
        map_of(s.remove(i)) == map_of(s).remove(s[i].0),
{
    let r = s.remove(i);
    assert(keys_of(r) =~= keys_of(s).remove(i));
    assert forall|a: int| 0 <= a < r.len() implies #[trigger] r[a] == s[if a < i { a } else { a + 1 }] by {}
    assert forall|a: int, b: int| 0 <= a < r.len() && 0 <= b < r.len() && a != b implies keys_of(r)[a] != keys_of(r)[b] by {
        let a2 = if a < i { a } else { a + 1 };
        let b2 = if b < i { b } else { b + 1 };
        assert(r[a] == s[a2] && r[b] == s[b2]);
        assert(keys_of(s)[a2] != keys_of(s)[b2]);
    }
    lemma_map_of(s);
    lemma_map_of(r);
    assert forall|k: Seq<u8>| #[trigger] map_of(r).contains_key(k) <==> map_of(s).remove(s[i].0).contains_key(k) by {
        if keys_of(r).contains(k) {
            let a = choose|a: int| 0 <= a < r.len() && keys_of(r)[a] == k;
            let a2 = if a < i { a } else { a + 1 };
            assert(r[a] == s[a2]);
            assert(keys_of(s)[a2] == k);
            assert(keys_of(s)[i] == s[i].0);
        }
        if keys_of(s).contains(k) && k != s[i].0 {
            let a = choose|a: int| 0 <= a < s.len() && keys_of(s)[a] == k;
            let a2 = if a < i { a } else { a - 1 };
            assert(r[a2] == s[a]);
            assert(keys_of(r)[a2] == k);
        }
    }
    assert forall|k: Seq<u8>| #[trigger] map_of(r).contains_key(k) implies map_of(r)[k] == map_of(s).remove(s[i].0)[k] by {
        let a = choose|a: int| 0 <= a < r.len() && keys_of(r)[a] == k;
        let a2 = if a < i { a } else { a + 1 };
        assert(r[a] == s[a2]);
    }
    assert(map_of(r) =~= map_of(s).remove(s[i].0));
}

/// A map from vehicle keys to records that never holds more than its capacity.
#[derive(Debug)]
pub struct VehicleStore {
    capacity: u32,
    entries: Vec<StoreEntry>,
}

impl View for VehicleStore {
    type V = Map<Seq<u8>, RecordView>;

    closed spec fn view(&self) -> Map<Seq<u8>, RecordView> {
        map_of(self.pairs())
    }
}

impl VehicleStore {
    spec fn pairs(&self) -> Seq<(Seq<u8>, RecordView)> {
        self.entries@.map_values(|e: StoreEntry| (e.key@, e.record@))
    }

    /// The most records the store may hold.
    pub closed spec fn capacity(&self) -> nat {
        self.capacity as nat
    }

    /// Keys are distinct, and there are no more entries than the capacity.
    pub closed spec fn wf(&self) -> bool {
        &&& keys_of(self.pairs()).no_duplicates()
        &&& self.entries@.len() <= self.capacity
    }

    /// The number of records, and that it is within the capacity.
    pub proof fn lemma_count(&self)
        requires
            self.wf(),
        ensures
            self@.dom().finite(),
            self@.dom().len() <= self.capacity(),
    {
        lemma_map_of(self.pairs());
    }

    /// An empty store that may hold up to `capacity` records.
    pub fn new(capacity: u32) -> (r: VehicleStore)
        ensures
            r.wf(),
            r@ == Map::<Seq<u8>, RecordView>::empty(),
            r.capacity() == capacity,
    {
        let r = VehicleStore { capacity, entries: Vec::new() };
        assert(r@ =~= Map::<Seq<u8>, RecordView>::empty());
        r
    }

    /// The most records the store may hold.
    pub fn max_entries(&self) -> (r: u32)
        ensures
            r == self.capacity(),
    {
        self.capacity
    }

    /// The number of records held.
    pub fn len(&self) -> (r: usize)
        requires
            self.wf(),
        ensures
            r == self@.dom().len(),
    {
        proof { lemma_map_of(self.pairs()); }
        self.entries.len()
    }

    /// The position of `key` among the entries, if it is present.
    fn find(&self, key: &[u8]) -> (r: Option<usize>)
        requires
            self.wf(),
        ensures
            r is None ==> !self@.contains_key(key@),
            r matches Some(i) ==> i < self.entries@.len() && self.pairs()[i as int].0 == key@,
    {
        proof { lemma_map_of(self.pairs()); }
        let mut i: usize = 0;
        while i < self.entries.len()
            invariant
                i <= self.entries@.len(),
                forall|j: int| 0 <= j < i ==> self.entries@[j].key@ != key@,
            decreases self.entries@.len() - i,
        {
            if bytes_equal(self.entries[i].key.as_slice(), key) {
                return Some(i);
            }
            i += 1;
        }
        assert(!keys_of(self.pairs()).contains(key@)) by {
            if keys_of(self.pairs()).contains(key@) {
                let j = choose|j: int| 0 <= j < self.pairs().len() && keys_of(self.pairs())[j] == key@;
                assert(self.entries@[j].key@ == key@);
            }
        }
        None
    }

    /// Whether a record is stored under `key`.
    pub fn contains_key(&self, key: &[u8]) -> (r: bool)
        requires
            self.wf(),
        ensures
            r == self@.contains_key(key@),
    {
        proof { lemma_map_of(self.pairs()); }
        self.find(key).is_some()
    }

    /// The record stored under `key`, if any.
    pub fn get(&self, key: &[u8]) -> (r: Option<&VehicleRecord>)
        requires
            self.wf(),
        ensures
            r is Some <==> self@.contains_key(key@),
            r matches Some(rec) ==> rec@ == self@[key@],
    {
        proof { lemma_map_of(self.pairs()); }
        match self.find(key) {
            Some(i) => {
                assert(self.pairs()[i as int].1 == self.entries@[i as int].record@);
                assert(self@.contains_key(self.pairs()[i as int].0));
                Some(&self.entries[i].record)
            },
            None => None,
        }
    }

    /// Stores `record` under `key`. Fails with `KeyExists` if the key is
    /// present, and otherwise with `CapacityExceeded` if the store is full.
    pub fn insert(&mut self, key: &[u8], record: VehicleRecord) -> (r: Result<(), StoreError>)
        requires
            old(self).wf(),
        ensures
            final(self).wf(),
            final(self).capacity() == old(self).capacity(),
            old(self)@.contains_key(key@) ==> r == Err::<(), StoreError>(StoreError::KeyExists),
            !old(self)@.contains_key(key@) && old(self)@.dom().len() >= old(self).capacity()
                ==> r == Err::<(), StoreError>(StoreError::CapacityExceeded),
            !old(self)@.contains_key(key@) && old(self)@.dom().len() < old(self).capacity()
                ==> r is Ok,
            r is Ok ==> final(self)@ == old(self)@.insert(key@, record@),
            r is Err ==> final(self)@ == old(self)@,
    {
        proof { lemma_map_of(self.pairs()); }
        if self.find(key).is_some() {
            return Err(StoreError::KeyExists);
        }
        if self.entries.len() as u64 >= self.capacity as u64 {
            return Err(StoreError::CapacityExceeded);
        }
        let ghost before = self.pairs();
        let ghost rec = record@;
        self.entries.push(StoreEntry { key: copy_bytes(key), record });
        proof {
            assert(self.pairs() =~= before.push((key@, rec)));
            lemma_map_of_push(before, (key@, rec));
        }
        Ok(())
    }

    /// Replaces the record under `key` with `record`, and returns the one it
    /// held. Fails with `NotFound` if the key is absent.
    pub fn update(&mut self, key: &[u8], record: VehicleRecord) -> (r: Result<VehicleRecord, StoreError>)
        requires
            old(self).wf(),
        ensures
            final(self).wf(),
            final(self).capacity() == old(self).capacity(),
            !old(self)@.contains_key(key@) ==> r matches Err(StoreError::NotFound),
            old(self)@.contains_key(key@) ==> (r matches Ok(prev) && prev@ == old(self)@[key@]),
            r is Ok ==> final(self)@ == old(self)@.insert(key@, record@),
            r is Err ==> final(self)@ == old(self)@,
    {
        proof { lemma_map_of(self.pairs()); }
        match self.find(key) {
            None => Err(StoreError::NotFound),
            Some(i) => {
                let ghost before = self.pairs();
                let ghost rec = record@;
                let prev = self.entries.remove(i);
                assert(self.pairs() =~= before.remove(i as int));
                proof { lemma_map_of_remove(before, i as int); }
                let ghost mid = self.pairs();
                self.entries.push(StoreEntry { key: prev.key, record });
                proof {
                    assert(self.pairs() =~= mid.push((key@, rec)));
                    lemma_map_of(mid);
                    lemma_map_of_push(mid, (key@, rec));
                    assert(map_of(mid).insert(key@, rec) =~= map_of(before).insert(key@, rec));
                }
                Ok(prev.record)
            },
        }
    }

    /// Removes the record under `key` and returns it. Fails with `NotFound`
    /// if the key is absent.
    pub fn remove(&mut self, key: &[u8]) -> (r: Result<VehicleRecord, StoreError>)
        requires
            old(self).wf(),
        ensures
            final(self).wf(),
            final(self).capacity() == old(self).capacity(),
            !old(self)@.contains_key(key@) ==> r matches Err(StoreError::NotFound),
            old(self)@.contains_key(key@) ==> (r matches Ok(prev) && prev@ == old(self)@[key@]),
            r is Ok ==> final(self)@ == old(self)@.remove(key@),
            r is Err ==> final(self)@ == old(self)@,
    {
        proof { lemma_map_of(self.pairs()); }
        match self.find(key) {
            None => Err(StoreError::NotFound),
            Some(i) => {
                let ghost before = self.pairs();
                let prev = self.entries.remove(i);
                assert(self.pairs() =~= before.remove(i as int));
                proof { lemma_map_of_remove(before, i as int); }
                Ok(prev.record)
            },
        }
    }
}

} // verus!
