//! Bucket/key byte store with map semantics.
//!
//! The store holds immutable byte blobs addressed by a bucket name and a
//! key unique within the bucket.  Its abstract state is a map from the
//! (bucket, key) address to the stored bytes; writes insert or overwrite,
//! clearing a bucket removes every address in it, and clearing the store
//! empties the map.

use vstd::pervasive::VecAdditionalExecFns;
use vstd::prelude::*;
use vstd::slice::slice_to_vec;

verus! {

/// The pair of names that addresses one stored blob.
pub type EntryAddr = (Seq<char>, Seq<char>);

/// One abstract entry: bucket name, key, and the stored bytes.
pub type EntryTriple = (Seq<char>, Seq<char>, Seq<u8>);

/// The map described by a sequence of entries, later entries overriding
/// earlier ones at the same address.
pub open spec fn triples_map(s: Seq<EntryTriple>) -> Map<EntryAddr, Seq<u8>>
    decreases s.len(),
{
    if s.len() == 0 {
        Map::empty()
    } else {
        triples_map(s.drop_last()).insert((s.last().0, s.last().1), s.last().2)
    }
}

/// Some entry of `s` has the address (`b`, `k`).
pub open spec fn addr_in(s: Seq<EntryTriple>, b: Seq<char>, k: Seq<char>) -> bool {
    exists|i: int| 0 <= i < s.len() && s[i].0 == b && s[i].1 == k
}

/// No two entries of `s` share an address.
pub open spec fn distinct_addrs(s: Seq<EntryTriple>) -> bool {
    forall|i: int, j: int|
        0 <= i < j < s.len() ==> !(#[trigger] s[i].0 == #[trigger] s[j].0 && s[i].1 == s[j].1)
}

/// The entries of `s` whose bucket is not `b`, in order.
pub open spec fn drop_bucket(s: Seq<EntryTriple>, b: Seq<char>) -> Seq<EntryTriple>
    decreases s.len(),
{
    if s.len() == 0 {
        Seq::empty()
    } else if s.last().0 == b {
        drop_bucket(s.drop_last(), b)
    } else {
        drop_bucket(s.drop_last(), b).push(s.last())
    }
}

/// Every address whose bucket is `b`.
pub open spec fn bucket_addrs(b: Seq<char>) -> Set<EntryAddr> {
    Set::new(|p: EntryAddr| p.0 == b)
}

/// The total number of stored bytes across the entries of `s`.
pub open spec fn sum_sizes(s: Seq<EntryTriple>) -> nat
    decreases s.len(),
{
    if s.len() == 0 {
        0
    } else {
        sum_sizes(s.drop_last()) + s.last().2.len()
    }
}

/// A value capped at the largest representable 64-bit count.
pub open spec fn cap_u64(n: nat) -> u64 {
    if n > u64::MAX {
        u64::MAX
    } else {
        n as u64
    }
}

/// An address is in the map of `s` exactly when some entry of `s` carries it.
pub proof fn lemma_triples_map_contains(s: Seq<EntryTriple>, b: Seq<char>, k: Seq<char>)
    ensures
        triples_map(s).contains_key((b, k)) <==> addr_in(s, b, k),
    decreases s.len(),
{
    if s.len() > 0 {
        lemma_triples_map_contains(s.drop_last(), b, k);
        if s.last().0 == b && s.last().1 == k {
            assert(s[s.len() - 1].0 == b && s[s.len() - 1].1 == k);
        } else if addr_in(s, b, k) {
            let i = choose|i: int| 0 <= i < s.len() && s[i].0 == b && s[i].1 == k;
            assert(s.drop_last()[i] == s[i]);
        }
    }
}

/// The map domain of a sequence of entries is finite.
pub proof fn lemma_triples_map_finite(s: Seq<EntryTriple>)
    ensures
        triples_map(s).dom().finite(),
    decreases s.len(),
{
    if s.len() > 0 {
        lemma_triples_map_finite(s.drop_last());
    }
}

/// With distinct addresses, each entry of `s` is found in the map of `s`.
pub proof fn lemma_triples_map_index(s: Seq<EntryTriple>, i: int)
    requires
        distinct_addrs(s),
        0 <= i < s.len(),
    ensures
        triples_map(s).contains_key((s[i].0, s[i].1)),
        triples_map(s)[(s[i].0, s[i].1)] == s[i].2,
    decreases s.len(),
{
    if i == s.len() - 1 {
    } else {
        assert(s.drop_last()[i] == s[i]);
        lemma_triples_map_index(s.drop_last(), i);
    }
}

/// With distinct addresses, the map has exactly one element per entry.
pub proof fn lemma_triples_map_len(s: Seq<EntryTriple>)
    requires
        distinct_addrs(s),
    ensures
        triples_map(s).len() == s.len(),
    decreases s.len(),
{
    if s.len() > 0 {
        lemma_triples_map_len(s.drop_last());
        lemma_triples_map_finite(s.drop_last());
        lemma_triples_map_contains(s.drop_last(), s.last().0, s.last().1);
        assert(!addr_in(s.drop_last(), s.last().0, s.last().1)) by {
            if addr_in(s.drop_last(), s.last().0, s.last().1) {
                let i = choose|i: int|
                    0 <= i < s.drop_last().len() && s.drop_last()[i].0 == s.last().0
                        && s.drop_last()[i].1 == s.last().1;
                assert(s[i] == s.drop_last()[i]);
                assert(!(s[i].0 == s[s.len() - 1].0 && s[i].1 == s[s.len() - 1].1));
            }
        }
    }
}

/// Overwriting the entry at `i` updates the map at that entry's address.
pub proof fn lemma_triples_map_update(s: Seq<EntryTriple>, i: int, v: Seq<u8>)
    requires
        distinct_addrs(s),
        0 <= i < s.len(),
    ensures
        triples_map(s.update(i, (s[i].0, s[i].1, v))) == triples_map(s).insert(
            (s[i].0, s[i].1),
            v,
        ),
    decreases s.len(),
{
    let t = s.update(i, (s[i].0, s[i].1, v));
    if i == s.len() - 1 {
        assert(t.drop_last() =~= s.drop_last());
        assert(t.last() == (s[i].0, s[i].1, v));
        assert(triples_map(s.drop_last()).insert((s[i].0, s[i].1), v) =~= triples_map(
            s,
        ).insert((s[i].0, s[i].1), v));
    } else {
        assert(t.drop_last() =~= s.drop_last().update(i, (s[i].0, s[i].1, v)));
        assert(t.last() == s.last());
        assert(s.drop_last()[i] == s[i]);
        lemma_triples_map_update(s.drop_last(), i, v);
        assert(!(s[i].0 == s[s.len() - 1].0 && s[i].1 == s[s.len() - 1].1));
        assert(triples_map(s.drop_last()).insert((s[i].0, s[i].1), v).insert(
            (s.last().0, s.last().1),
            s.last().2,
        ) =~= triples_map(s.drop_last()).insert((s.last().0, s.last().1), s.last().2).insert(
            (s[i].0, s[i].1),
            v,
        ));
    }
}

/// Every address in the filtered sequence comes from `s` and avoids bucket `b`.
pub proof fn lemma_drop_bucket_sub(s: Seq<EntryTriple>, b: Seq<char>)
    ensures
        forall|x: Seq<char>, y: Seq<char>|
            #[trigger] addr_in(drop_bucket(s, b), x, y) ==> addr_in(s, x, y) && x != b,
    decreases s.len(),
{
    if s.len() > 0 {
        lemma_drop_bucket_sub(s.drop_last(), b);
        assert forall|x: Seq<char>, y: Seq<char>| #[trigger]
            addr_in(drop_bucket(s, b), x, y) implies addr_in(s, x, y) && x != b by {
            let d = drop_bucket(s, b);
            let i = choose|i: int| 0 <= i < d.len() && d[i].0 == x && d[i].1 == y;
            if s.last().0 == b {
                assert(addr_in(drop_bucket(s.drop_last(), b), x, y));
                let j = choose|j: int|
                    0 <= j < s.drop_last().len() && s.drop_last()[j].0 == x && s.drop_last()[j].1
                        == y;
                assert(s[j] == s.drop_last()[j]);
            } else {
                let p = drop_bucket(s.drop_last(), b);
                if i < p.len() {
                    assert(addr_in(p, x, y));
                    let j = choose|j: int|
                        0 <= j < s.drop_last().len() && s.drop_last()[j].0 == x
                            && s.drop_last()[j].1 == y;
                    assert(s[j] == s.drop_last()[j]);
                } else {
                    assert(d[i] == s.last());
                    assert(s[s.len() - 1].0 == x && s[s.len() - 1].1 == y);
                }
            }
        }
    }
}

/// Filtering a bucket out preserves distinctness of addresses.
pub proof fn lemma_drop_bucket_distinct(s: Seq<EntryTriple>, b: Seq<char>)
    requires
        distinct_addrs(s),
    ensures
        distinct_addrs(drop_bucket(s, b)),
    decreases s.len(),
{
    if s.len() > 0 {
        assert(distinct_addrs(s.drop_last())) by {
            assert(forall|i: int|
                0 <= i < s.drop_last().len() ==> s.drop_last()[i] == s[i]);
        }
        lemma_drop_bucket_distinct(s.drop_last(), b);
        if s.last().0 != b {
            let p = drop_bucket(s.drop_last(), b);
            let d = drop_bucket(s, b);
            assert(!addr_in(s.drop_last(), s.last().0, s.last().1)) by {
                if addr_in(s.drop_last(), s.last().0, s.last().1) {
                    let i = choose|i: int|
                        0 <= i < s.drop_last().len() && s.drop_last()[i].0 == s.last().0
                            && s.drop_last()[i].1 == s.last().1;
                    assert(s[i] == s.drop_last()[i]);
                    assert(!(s[i].0 == s[s.len() - 1].0 && s[i].1 == s[s.len() - 1].1));
                }
            }
            lemma_drop_bucket_sub(s.drop_last(), b);
            assert forall|i: int, j: int| 0 <= i < j < d.len() implies !(#[trigger] d[i].0
                == #[trigger] d[j].0 && d[i].1 == d[j].1) by {
                if j == d.len() - 1 {
                    assert(d[j] == s.last());
                    assert(d[i] == p[i]);
                    if d[i].0 == s.last().0 && d[i].1 == s.last().1 {
                        assert(addr_in(p, d[i].0, d[i].1));
                        assert(addr_in(s.drop_last(), s.last().0, s.last().1));
                    }
                } else {
                    assert(d[i] == p[i] && d[j] == p[j]);
                }
            }
        }
    }
}

/// One stored blob: its bucket name, its key, and the bytes.
struct StoreEntry {
    bucket: String,
    key: String,
    data: Vec<u8>,
}

/// A bucket/key store of byte blobs.
///
/// The abstract state (the view) is a map from (bucket, key) addresses to
/// byte sequences.  Every operation is described as a map operation on
/// that state.
pub struct DiskStore {
    entries: Vec<StoreEntry>,
}

impl View for DiskStore {
    type V = Map<EntryAddr, Seq<u8>>;

    closed spec fn view(&self) -> Map<EntryAddr, Seq<u8>> {
        triples_map(self.entries_seq())
    }
}

impl DiskStore {
    /// The stored entries as (bucket, key, bytes) triples, in storage order.
    pub closed spec fn entries_seq(&self) -> Seq<EntryTriple> {
        self.entries@.map_values(|e: StoreEntry| (e.bucket@, e.key@, e.data@))
    }

    /// Well-formed: no two entries share an address.
    pub closed spec fn wf(&self) -> bool {
        distinct_addrs(self.entries_seq())
    }

    /// A well-formed store has exactly one map element per entry.
    pub proof fn lemma_entry_count(&self)
        requires
            self.wf(),
        ensures
            self@.len() == self.entries_seq().len(),
            self@.dom().finite(),
    {
        lemma_triples_map_len(self.entries_seq());
        lemma_triples_map_finite(self.entries_seq());
    }

    /// Creates an empty store.
    pub fn new() -> (r: DiskStore)
        ensures
            r.wf(),
            r@ == Map::<EntryAddr, Seq<u8>>::empty(),
            r.entries_seq() == Seq::<EntryTriple>::empty(),
    {
        let r = DiskStore { entries: Vec::new() };
        proof {
            assert(r.entries_seq() =~= Seq::<EntryTriple>::empty());
        }
        r
    }

    /// The position of the entry addressed by (`bucket`, `key`), if any.
    fn find(&self, bucket: &String, key: &String) -> (r: Option<usize>)
        ensures
            match r {
                Some(i) => i < self.entries_seq().len() && self.entries_seq()[i as int].0
                    == bucket@ && self.entries_seq()[i as int].1 == key@,
                None => !addr_in(self.entries_seq(), bucket@, key@),
            },
    {
        let mut i: usize = 0;
        while i < self.entries.len()
            invariant
                i <= self.entries_seq().len(),
                self.entries_seq().len() == self.entries@.len(),
                forall|j: int|
                    0 <= j < i ==> !(#[trigger] self.entries_seq()[j].0 == bucket@
                        && self.entries_seq()[j].1 == key@),
            decreases self.entries@.len() - i,
        {
            let e = &self.entries[i];
            if e.bucket == *bucket && e.key == *key {
                return Some(i);
            }
            i = i + 1;
        }
        None
    }

    /// Stores `value` at (`bucket`, `key`), overwriting any prior content
    /// at that address.
    pub fn put(&mut self, bucket: &String, key: &String, value: &[u8])
        requires
            old(self).wf(),
        ensures
            final(self).wf(),
            final(self)@ == old(self)@.insert((bucket@, key@), value@),
            final(self).entries_seq().len() == if old(self)@.contains_key((bucket@, key@)) {
                old(self).entries_seq().len()
            } else {
                old(self).entries_seq().len() + 1
            },
    {
        let ghost s = self.entries_seq();
        proof {
            lemma_triples_map_contains(s, bucket@, key@);
        }
        match self.find(bucket, key) {
            Some(i) => {
                let e = StoreEntry {
                    bucket: bucket.clone(),
                    key: key.clone(),
                    data: slice_to_vec(value),
                };
                self.entries.set(i, e);
                proof {
                    assert(self.entries_seq() =~= s.update(i as int, (bucket@, key@, value@)));
                    assert(s.update(i as int, (bucket@, key@, value@)) =~= s.update(
                        i as int,
                        (s[i as int].0, s[i as int].1, value@),
                    ));
                    lemma_triples_map_update(s, i as int, value@);
                    assert(distinct_addrs(self.entries_seq())) by {
                        let t = self.entries_seq();
                        assert(forall|j: int|
                            0 <= j < t.len() ==> t[j].0 == s[j].0 && t[j].1 == s[j].1);
                    }
                }
            },
            None => {
                let e = StoreEntry {
                    bucket: bucket.clone(),
                    key: key.clone(),
                    data: slice_to_vec(value),
                };
                self.entries.push(e);
                proof {
                    let t = self.entries_seq();
                    assert(t =~= s.push((bucket@, key@, value@)));
                    assert(t.drop_last() =~= s);
                    assert(distinct_addrs(t)) by {
                        assert(forall|j: int| 0 <= j < s.len() ==> t[j] == s[j]);
                    }
                }
            },
        }
    }

    /// The bytes stored at (`bucket`, `key`): present exactly when the
    /// address is in the store.
    pub fn get(&self, bucket: &String, key: &String) -> (r: Option<Vec<u8>>)
        requires
            self.wf(),
        ensures
            match r {
                Some(v) => self@.contains_key((bucket@, key@)) && v@ == self@[(bucket@, key@)],
                None => !self@.contains_key((bucket@, key@)),
            },
    {
        proof {
            lemma_triples_map_contains(self.entries_seq(), bucket@, key@);
        }
        match self.find(bucket, key) {
            Some(i) => {
                proof {
                    lemma_triples_map_index(self.entries_seq(), i as int);
                }
                let v = slice_to_vec(self.entries[i].data.as_slice());
                Some(v)
            },
            None => None,
        }
    }

    /// Removes every entry whose bucket is `bucket`; other buckets are
    /// untouched.
    pub fn clear_bucket(&mut self, bucket: &String)
        requires
            old(self).wf(),
        ensures
            final(self).wf(),
            final(self)@ == old(self)@.remove_keys(bucket_addrs(bucket@)),
    {
        let ghost s = self.entries_seq();
        let mut kept: Vec<StoreEntry> = Vec::new();
        let mut i: usize = 0;
        while i < self.entries.len()
            invariant
                i <= self.entries@.len(),
                self.entries_seq() == s,
                self.entries_seq().len() == self.entries@.len(),
                kept@.map_values(|e: StoreEntry| (e.bucket@, e.key@, e.data@)) =~= drop_bucket(
                    s.take(i as int),
                    bucket@,
                ),
            decreases self.entries@.len() - i,
        {
            let e = &self.entries[i];
            let ghost prefix = s.take(i as int);
            proof {
                assert(s.take(i + 1).drop_last() =~= prefix);
                assert(s.take(i + 1).last() == s[i as int]);
            }
            if !(e.bucket == *bucket) {
                let kept_entry = StoreEntry {
                    bucket: e.bucket.clone(),
                    key: e.key.clone(),
                    data: slice_to_vec(e.data.as_slice()),
                };
                kept.push(kept_entry);
            }
            i = i + 1;
        }
        proof {
            assert(s.take(s.len() as int) =~= s);
        }
        self.entries = kept;
        proof {
            lemma_drop_bucket_distinct(s, bucket@);
            lemma_drop_bucket_map(s, bucket@);
        }
    }

    /// Removes every entry of the store.
    pub fn clear_all(&mut self)
        ensures
            final(self).wf(),
            final(self)@ == Map::<EntryAddr, Seq<u8>>::empty(),
            final(self).entries_seq() == Seq::<EntryTriple>::empty(),
    {
        self.entries.clear();
        proof {
            assert(self.entries_seq() =~= Seq::<EntryTriple>::empty());
        }
    }

    /// The total stored byte size and the number of entries, each capped
    /// at the largest 64-bit count.
    pub fn stats(&self) -> (r: (u64, u64))
        ensures
            r.0 == cap_u64(sum_sizes(self.entries_seq())),
            r.1 == cap_u64(self.entries_seq().len() as nat),
    {
        let ghost s = self.entries_seq();
        let mut total: u64 = 0;
        let mut i: usize = 0;
        while i < self.entries.len()
            invariant
                i <= self.entries@.len(),
                self.entries_seq() == s,
                self.entries_seq().len() == self.entries@.len(),
                total == cap_u64(sum_sizes(s.take(i as int))),
            decreases self.entries@.len() - i,
        {
            proof {
                assert(s.take(i + 1).drop_last() =~= s.take(i as int));
                assert(s.take(i + 1).last() == s[i as int]);
            }
            let size = self.entries[i].data.len();
            total = total.saturating_add(size as u64);
            i = i + 1;
        }
        proof {
            assert(s.take(s.len() as int) =~= s);
        }
        (total, self.entries.len() as u64)
    }
}

/// Filtering a bucket out of the entries removes its addresses from the map.
pub proof fn lemma_drop_bucket_map(s: Seq<EntryTriple>, b: Seq<char>)
    ensures
        triples_map(drop_bucket(s, b)) == triples_map(s).remove_keys(bucket_addrs(b)),
    decreases s.len(),
{
    if s.len() == 0 {
        assert(triples_map(drop_bucket(s, b)) =~= triples_map(s).remove_keys(bucket_addrs(b)));
    } else {
        lemma_drop_bucket_map(s.drop_last(), b);
        if s.last().0 == b {
            assert(triples_map(s.drop_last()).remove_keys(bucket_addrs(b)) =~= triples_map(
                s,
            ).remove_keys(bucket_addrs(b)));
        } else {
            let d = drop_bucket(s, b);
            assert(d.drop_last() =~= drop_bucket(s.drop_last(), b));
            assert(d.last() == s.last());
            assert(triples_map(s.drop_last()).remove_keys(bucket_addrs(b)).insert(
                (s.last().0, s.last().1),
                s.last().2,
            ) =~= triples_map(s).remove_keys(bucket_addrs(b)));
        }
    }
}

} // verus!
