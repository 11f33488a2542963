//! A map from strings to strings in which the last write to a key wins.
//!
//! The entries stand in a list, in the order in which their keys arrived. An
//! index from the hash of a key to the positions of the keys with that hash
//! finds an entry without a walk through the list.

use crate::text::str_eq;
use std::collections::HashMap;
use vstd::prelude::*;
use vstd::string::StringSliceAdditionalSpecFns;
use vstd::utf8::encode_utf8;

verus! {

broadcast use vstd::std_specs::hash::group_hash_axioms;

/// A finite map from strings to strings. Inserting under a key that is already
/// present replaces its value; the entries keep the order in which their keys
/// first arrived.
#[derive(Debug)]
pub struct StringMap {
    entries: Vec<(String, String)>,
    index: HashMap<u64, Vec<usize>>,
}

/// The hash of the first `n` of some bytes: FNV-1a, 64 bits wide.
pub open spec fn hash_of_bytes(bytes: Seq<u8>, n: int) -> u64
    decreases n,
{
    if n <= 0 {
        0xcbf29ce484222325
    } else {
        (hash_of_bytes(bytes, n - 1) ^ (bytes[n - 1] as u64)).wrapping_mul(0x100000001b3)
    }
}

/// The hash of a key: that of its UTF-8 encoding.
pub open spec fn key_hash(key: Seq<char>) -> u64 {
    hash_of_bytes(encode_utf8(key), encode_utf8(key).len() as int)
}

/// Computes the hash of a key.
pub fn hash_key(key: &str) -> (h: u64)
    ensures
        h == key_hash(key@),
{
    let x = key.as_bytes();
    let mut h: u64 = 0xcbf29ce484222325;
    let mut i: usize = 0;
    while i < x.len()
        invariant
            i <= x@.len(),
            h == hash_of_bytes(x@, i as int),
        decreases x@.len() - i,
    {
        h = (h ^ (x[i] as u64)).wrapping_mul(0x100000001b3);
        i += 1;
    }
    h
}

/// Whether a list of positions holds the position `i`.
pub open spec fn holds_position(positions: Seq<usize>, i: int) -> bool {
    exists|t: int| 0 <= t < positions.len() && #[trigger] positions[t] == i
}

/// Whether the index knows the position `i` under the hash of `key`.
pub open spec fn indexed(index: Map<u64, Vec<usize>>, i: int, key: Seq<char>) -> bool {
    index.contains_key(key_hash(key)) && holds_position(index[key_hash(key)]@, i)
}

/// Whether an index fits a list of entries: it knows every entry's position
/// under the hash of the entry's key, and knows no position beyond the list.
pub open spec fn index_fits(index: Map<u64, Vec<usize>>, e: Seq<(String, String)>) -> bool {
    &&& forall|i: int| 0 <= i < e.len() ==> indexed(index, i, (#[trigger] e[i]).0@)
    &&& forall|h: u64, t: int|
        index.contains_key(h) && 0 <= t < index[h]@.len() ==> (#[trigger] index[h]@[t]) < e.len()
}

/// Whether no two of the entries share a key.
pub open spec fn distinct_keys(e: Seq<(String, String)>) -> bool {
    forall|i: int, j: int| 0 <= i < j < e.len() ==> (#[trigger] e[i]).0@ != (#[trigger] e[j]).0@
}

/// Whether some entry has the key `k`.
pub open spec fn has_key(e: Seq<(String, String)>, k: Seq<char>) -> bool {
    exists|i: int| 0 <= i < e.len() && (#[trigger] e[i]).0@ == k
}

/// The position of an entry with the key `k`.
pub open spec fn key_index(e: Seq<(String, String)>, k: Seq<char>) -> int {
    choose|i: int| 0 <= i < e.len() && (#[trigger] e[i]).0@ == k
}

/// The map that a list of entries stands for.
pub open spec fn entries_map(e: Seq<(String, String)>) -> Map<Seq<char>, Seq<char>> {
    Map::new(|k: Seq<char>| has_key(e, k), |k: Seq<char>| e[key_index(e, k)].1@)
}

/// A list of entries with distinct keys stands for a map with as many keys
/// as there are entries.
pub proof fn lemma_entries_count(e: Seq<(String, String)>)
    requires
        distinct_keys(e),
    ensures
        entries_map(e).dom().finite(),
        entries_map(e).dom().len() == e.len(),
    decreases e.len(),
{
    if e.len() == 0 {
        assert(entries_map(e).dom() =~= Set::<Seq<char>>::empty());
    } else {
        let d = e.drop_last();
        let key = e.last().0@;
        assert forall|i: int, j: int| 0 <= i < j < d.len() implies (#[trigger] d[i]).0@ != (
        #[trigger] d[j]).0@ by {
            assert(d[i] == e[i] && d[j] == e[j]);
        }
        lemma_entries_count(d);
        assert(!has_key(d, key)) by {
            if has_key(d, key) {
                let i = key_index(d, key);
                assert(d[i] == e[i]);
                assert(e[e.len() - 1].0@ == key);
            }
        }
        assert forall|k: Seq<char>| has_key(e, k) == (has_key(d, k) || k == key) by {
            if has_key(d, k) {
                let i = key_index(d, k);
                assert(e[i].0@ == k);
            }
            if k == key {
                assert(e[e.len() - 1].0@ == k);
            }
            if has_key(e, k) {
                let i = key_index(e, k);
                if i < d.len() {
                    assert(d[i].0@ == k);
                }
            }
        }
        assert(entries_map(e).dom() =~= entries_map(d).dom().insert(key));
    }
}

impl View for StringMap {
    type V = Map<Seq<char>, Seq<char>>;

    closed spec fn view(&self) -> Map<Seq<char>, Seq<char>> {
        entries_map(self.entries@)
    }
}

impl StringMap {
    #[verifier::type_invariant]
    spec fn wf(self) -> bool {
        distinct_keys(self.entries@) && index_fits(self.index@, self.entries@)
    }

    /// The empty map.
    pub fn new() -> (r: Self)
        ensures
            r@ == Map::<Seq<char>, Seq<char>>::empty(),
    {
        let r = StringMap { entries: Vec::new(), index: HashMap::new() };
        assert(r@ =~= Map::<Seq<char>, Seq<char>>::empty());
        r
    }

    /// The entries as a sequence.
    pub closed spec fn entry_seq(self) -> Seq<(String, String)> {
        self.entries@
    }

    /// The entries, one for each key, in the order in which the keys first
    /// arrived.
    pub fn entries(&self) -> (r: &Vec<(String, String)>)
        ensures
            r@ == self.entry_seq(),
            distinct_keys(r@),
            entries_map(r@) == self@,
    {
        proof {
            use_type_invariant(self);
        }
        &self.entries
    }

    fn position(&self, key: &str) -> (r: Option<usize>)
        ensures
            match r {
                Some(i) => i < self.entries@.len() && self.entries@[i as int].0@ == key@,
                None => !has_key(self.entries@, key@),
            },
    {
        proof {
            use_type_invariant(self);
        }
        let h = hash_key(key);
        match self.index.get(&h) {
            None => {
                proof {
                    if has_key(self.entries@, key@) {
                        let i = key_index(self.entries@, key@);
                        assert(indexed(self.index@, i, self.entries@[i].0@));
                    }
                }
                None
            },
            Some(bucket) => {
                let mut t: usize = 0;
                while t < bucket.len()
                    invariant
                        t <= bucket@.len(),
                        self.index@.contains_key(h),
                        self.index@[h] == *bucket,
                        index_fits(self.index@, self.entries@),
                        forall|u: int|
                            0 <= u < t ==> self.entries@[(#[trigger] bucket@[u]) as int].0@ != key@,
                    decreases bucket@.len() - t,
                {
                    let j = bucket[t];
                    assert(self.index@[h]@[t as int] < self.entries@.len());
                    if str_eq(self.entries[j].0.as_str(), key) {
                        return Some(j);
                    }
                    t += 1;
                }
                proof {
                    if has_key(self.entries@, key@) {
                        let i = key_index(self.entries@, key@);
                        assert(indexed(self.index@, i, self.entries@[i].0@));
                        let u = choose|u: int| 0 <= u < bucket@.len() && #[trigger] bucket@[u] == i;
                        assert(self.entries@[bucket@[u] as int].0@ != key@);
                    }
                }
                None
            },
        }
    }

    /// Whether the map has a value under `key`.
    pub fn contains_key(&self, key: &str) -> (r: bool)
        ensures
            r == self@.contains_key(key@),
    {
        self.position(key).is_some()
    }

    /// The value under `key`.
    pub fn get(&self, key: &str) -> (r: Option<&String>)
        ensures
            match r {
                Some(v) => self@.contains_key(key@) && v@ == self@[key@],
                None => !self@.contains_key(key@),
            },
    {
        proof {
            use_type_invariant(self);
        }
        match self.position(key) {
            Some(i) => {
                assert(has_key(self.entries@, key@));
                Some(&self.entries[i].1)
            },
            None => None,
        }
    }

    /// Whether the map has no entry.
    pub fn is_empty(&self) -> (r: bool)
        ensures
            r == (self@ == Map::<Seq<char>, Seq<char>>::empty()),
    {
        let r = self.entries.len() == 0;
        proof {
            if r {
                assert(self@ =~= Map::<Seq<char>, Seq<char>>::empty());
            } else {
                assert(has_key(self.entries@, self.entries@[0].0@));
                assert(self@.contains_key(self.entries@[0].0@));
            }
        }
        r
    }

    /// The number of keys.
    pub fn len(&self) -> (r: usize)
        ensures
            r == self.entry_seq().len(),
            self@.dom().finite(),
            r == self@.dom().len(),
    {
        proof {
            use_type_invariant(self);
            lemma_entries_count(self.entries@);
        }
        self.entries.len()
    }

    /// Puts `value` under `key`, in place of any value that was there.
    pub fn insert(&mut self, key: String, value: String)
        ensures
            final(self)@ == old(self)@.insert(key@, value@),
    {
        proof {
            use_type_invariant(&*self);
        }
        let found = self.position(key.as_str());
        let mut taken = StringMap::new();
        core::mem::swap(self, &mut taken);
        let mut entries = taken.entries;
        let mut index = taken.index;
        let ghost before = entries@;
        let ghost known = index@;
        match found {
            Some(i) => {
                entries.set(i, (key, value));
                proof {
                    let after = entries@;
                    assert forall|k: Seq<char>| has_key(after, k) == has_key(before, k) by {
                        if has_key(before, k) {
                            let j = key_index(before, k);
                            assert(after[j].0@ == k);
                        }
                        if has_key(after, k) {
                            let j = key_index(after, k);
                            assert(before[j].0@ == k);
                        }
                    }
                    assert(entries_map(after) =~= entries_map(before).insert(key@, value@));
                    assert forall|j: int| 0 <= j < after.len() implies indexed(
                        known,
                        j,
                        (#[trigger] after[j]).0@,
                    ) by {
                        assert(indexed(known, j, before[j].0@));
                    }
                }
            },
            None => {
                let h = hash_key(key.as_str());
                let at = entries.len();
                entries.push((key, value));
                let mut bucket: Vec<usize> = match index.remove(&h) {
                    Some(b) => b,
                    None => Vec::new(),
                };
                let ghost earlier = bucket@;
                bucket.push(at);
                index.insert(h, bucket);
                proof {
                    let after = entries@;
                    let n = before.len() as int;
                    assert(after[n].0@ == key@);
                    assert forall|k: Seq<char>| has_key(after, k) == (has_key(before, k) || k
                        == key@) by {
                        if has_key(before, k) {
                            let j = key_index(before, k);
                            assert(after[j].0@ == k);
                        }
                        if has_key(after, k) {
                            let j = key_index(after, k);
                            if j < n {
                                assert(before[j].0@ == k);
                            }
                        }
                    }
                    assert(entries_map(after) =~= entries_map(before).insert(key@, value@));
                    assert(known.contains_key(h) ==> earlier == known[h]@);
                    assert(!known.contains_key(h) ==> earlier.len() == 0);
                    assert(index@[h]@ == earlier.push(at));
                    assert forall|j: int| 0 <= j < after.len() implies indexed(
                        index@,
                        j,
                        (#[trigger] after[j]).0@,
                    ) by {
                        if j < n {
                            assert(after[j] == before[j]);
                            assert(indexed(known, j, before[j].0@));
                            if key_hash(before[j].0@) == h {
                                let u = choose|u: int|
                                    0 <= u < earlier.len() && #[trigger] earlier[u] == j;
                                assert(earlier.push(at)[u] == j);
                            } else {
                                assert(index@[key_hash(before[j].0@)] == known[key_hash(
                                    before[j].0@,
                                )]);
                            }
                        } else {
                            assert(earlier.push(at)[earlier.len() as int] == at);
                        }
                    }
                    assert forall|g: u64, t: int|
                        index@.contains_key(g) && 0 <= t < index@[g]@.len() implies (
                    #[trigger] index@[g]@[t]) < after.len() by {
                        if g == h {
                            if t < earlier.len() {
                                assert(known[h]@[t] < before.len());
                            }
                        } else {
                            assert(known[g]@[t] < before.len());
                        }
                    }
                }
            },
        }
        *self = StringMap { entries, index };
    }
}

impl Clone for StringMap {
    fn clone(&self) -> (r: Self)
        ensures
            r@ == self@,
            r.entry_seq() == self.entry_seq(),
    {
        proof {
            use_type_invariant(self);
        }
        let mut entries: Vec<(String, String)> = Vec::new();
        let mut i: usize = 0;
        while i < self.entries.len()
            invariant
                i <= self.entries@.len(),
                entries@ == self.entries@.subrange(0, i as int),
            decreases self.entries@.len() - i,
        {
            let k = self.entries[i].0.clone();
            let v = self.entries[i].1.clone();
            entries.push((k, v));
            assert(entries@ =~= self.entries@.subrange(0, i + 1));
            i += 1;
        }
        assert(entries@ =~= self.entries@);
        StringMap { entries, index: self.index.clone() }
    }
}

impl Default for StringMap {
    fn default() -> (r: Self)
        ensures
            r@ == Map::<Seq<char>, Seq<char>>::empty(),
    {
        StringMap::new()
    }
}

} // verus!
