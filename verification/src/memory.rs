//! The bounded memory tier: a least-recently-used cache of decoded
//! images keyed by identifier.
//!
//! The cache itself is `lru::LruCache`; its abstract contents are the
//! sequence of (identifier, image) entries ordered from most to least
//! recently used, never longer than the configured capacity.

use crate::decode::CachedImage;
use std::collections::hash_map::RandomState;
use vstd::prelude::*;

verus! {

/// One memory-tier entry: the identifier and the image it maps to,
/// the image given as (width, height, pixel bytes).
pub type MemEntry = (Seq<char>, (nat, nat, Seq<u8>));

#[verifier::external_type_specification]
#[verifier::external_body]
#[verifier::reject_recursive_types(K)]
#[verifier::reject_recursive_types(V)]
#[verifier::reject_recursive_types(S)]
pub struct ExLruCache<K, V, S>(lru::LruCache<K, V, S>);

/// The entries held by an image cache, ordered from most to least
/// recently used.
pub uninterp spec fn lru_entries(c: lru::LruCache<String, CachedImage, RandomState>) -> Seq<MemEntry>;

/// The capacity an image cache was created with.
pub uninterp spec fn lru_capacity(c: lru::LruCache<String, CachedImage, RandomState>) -> nat;

/// The position of the entry with key `k`, or a negative value if there
/// is none.
pub open spec fn key_index(s: Seq<MemEntry>, k: Seq<char>) -> int
    decreases s.len(),
{
    if s.len() == 0 {
        -1
    } else if s[0].0 == k {
        0
    } else {
        let r = key_index(s.drop_first(), k);
        if r < 0 {
            -1
        } else {
            r + 1
        }
    }
}

/// No two entries share a key.
pub open spec fn distinct_keys(s: Seq<MemEntry>) -> bool {
    forall|i: int, j: int| 0 <= i < j < s.len() ==> #[trigger] s[i].0 != #[trigger] s[j].0
}

/// The image stored under `k`, if any.
pub open spec fn spec_mem_lookup(s: Seq<MemEntry>, k: Seq<char>) -> Option<(nat, nat, Seq<u8>)> {
    let i = key_index(s, k);
    if i >= 0 {
        Some(s[i].1)
    } else {
        None
    }
}

/// The entries after a lookup of `k`: a hit moves its entry to the
/// front, a miss changes nothing.
pub open spec fn spec_mem_touch(s: Seq<MemEntry>, k: Seq<char>) -> Seq<MemEntry> {
    let i = key_index(s, k);
    if i >= 0 {
        seq![s[i]] + s.remove(i)
    } else {
        s
    }
}

/// The entries after storing `v` under `k`: a present key is replaced
/// and moved to the front; a new key is inserted at the front, evicting
/// the least recently used entry when the cache is full.
pub open spec fn spec_mem_put(
    s: Seq<MemEntry>,
    cap: nat,
    k: Seq<char>,
    v: (nat, nat, Seq<u8>),
) -> Seq<MemEntry> {
    let i = key_index(s, k);
    if i >= 0 {
        seq![(k, v)] + s.remove(i)
    } else if s.len() < cap {
        seq![(k, v)] + s
    } else {
        seq![(k, v)] + s.drop_last()
    }
}

/// A found index points at the key; a negative result means the key is
/// absent.
pub proof fn lemma_key_index(s: Seq<MemEntry>, k: Seq<char>)
    ensures
        key_index(s, k) >= 0 ==> 0 <= key_index(s, k) < s.len() && s[key_index(s, k)].0 == k,
        key_index(s, k) < 0 ==> forall|i: int| 0 <= i < s.len() ==> #[trigger] s[i].0 != k,
    decreases s.len(),
{
    if s.len() > 0 && s[0].0 != k {
        lemma_key_index(s.drop_first(), k);
        let r = key_index(s.drop_first(), k);
        if r >= 0 {
            assert(s.drop_first()[r] == s[r + 1]);
        } else {
            assert(forall|i: int| 1 <= i < s.len() ==> #[trigger] s[i] == s.drop_first()[i - 1]);
        }
    }
}

/// Moving the entry at `i` to the front keeps the keys distinct and the
/// length unchanged.
pub proof fn lemma_promote_distinct(s: Seq<MemEntry>, i: int)
    requires
        distinct_keys(s),
        0 <= i < s.len(),
    ensures
        distinct_keys(seq![s[i]] + s.remove(i)),
        (seq![s[i]] + s.remove(i)).len() == s.len(),
{
    let t = seq![s[i]] + s.remove(i);
    assert forall|p: int, q: int|
        0 <= p < q < t.len() implies #[trigger] t[p].0 != #[trigger] t[q].0 by {
        let op = if p == 0 {
            i
        } else if p - 1 < i {
            p - 1
        } else {
            p
        };
        let oq = if q - 1 < i {
            q - 1
        } else {
            q
        };
        assert(t[p] == s[op]);
        assert(t[q] == s[oq]);
    }
}

/// Inserting a fresh key at the front keeps the keys distinct.
pub proof fn lemma_insert_front_distinct(s: Seq<MemEntry>, e: MemEntry)
    requires
        distinct_keys(s),
        forall|i: int| 0 <= i < s.len() ==> #[trigger] s[i].0 != e.0,
    ensures
        distinct_keys(seq![e] + s),
{
    let t = seq![e] + s;
    assert forall|p: int, q: int|
        0 <= p < q < t.len() implies #[trigger] t[p].0 != #[trigger] t[q].0 by {
        assert(t[q] == s[q - 1]);
        if p > 0 {
            assert(t[p] == s[p - 1]);
        }
    }
}

/// A prefix of a sequence with distinct keys has distinct keys.
pub proof fn lemma_drop_last_distinct(s: Seq<MemEntry>)
    requires
        distinct_keys(s),
        s.len() > 0,
    ensures
        distinct_keys(s.drop_last()),
        forall|i: int|
            0 <= i < s.drop_last().len() ==> #[trigger] s.drop_last()[i] == s[i],
{
}

/// Relies on `lru::LruCache::with_hasher`: a fresh cache is empty and
/// holds at most `cap` entries.
#[verifier::external_body]
fn lru_new(cap: usize) -> (r: lru::LruCache<String, CachedImage, RandomState>)
    requires
        1 <= cap,
    ensures
        lru_entries(r) == Seq::<MemEntry>::empty(),
        lru_capacity(r) == cap,
{
    lru::LruCache::with_hasher(std::num::NonZeroUsize::new(cap).unwrap(), RandomState::new())
}

/// Relies on `lru::LruCache::get`: a hit returns the stored value and
/// moves its entry to the most recently used position; a miss changes
/// nothing.
#[verifier::external_body]
fn lru_get(c: &mut lru::LruCache<String, CachedImage, RandomState>, k: &String) -> (r: Option<CachedImage>)
    ensures
        lru_capacity(*final(c)) == lru_capacity(*old(c)),
        lru_entries(*final(c)) == spec_mem_touch(lru_entries(*old(c)), k@),
        match r {
            Some(img) => spec_mem_lookup(lru_entries(*old(c)), k@) == Some(img@),
            None => spec_mem_lookup(lru_entries(*old(c)), k@) is None,
        },
{
    c.get(k).cloned()
}

/// Relies on `lru::LruCache::put`: a present key has its value replaced
/// and its entry moved to the front; a new key is inserted at the front,
/// evicting the least recently used entry when the cache is full.
#[verifier::external_body]
fn lru_put(c: &mut lru::LruCache<String, CachedImage, RandomState>, k: String, v: CachedImage)
    requires
        lru_entries(*old(c)).len() <= lru_capacity(*old(c)),
    ensures
        lru_capacity(*final(c)) == lru_capacity(*old(c)),
        lru_entries(*final(c)) == spec_mem_put(
            lru_entries(*old(c)),
            lru_capacity(*old(c)),
            k@,
            v@,
        ),
{
    let _ = c.put(k, v);
}

/// Relies on `lru::LruCache::len`: the number of entries held.
#[verifier::external_body]
fn lru_len(c: &lru::LruCache<String, CachedImage, RandomState>) -> (r: usize)
    ensures
        r == lru_entries(*c).len(),
{
    c.len()
}

/// Relies on `lru::LruCache::clear`: removes every entry.
#[verifier::external_body]
fn lru_clear(c: &mut lru::LruCache<String, CachedImage, RandomState>)
    ensures
        lru_capacity(*final(c)) == lru_capacity(*old(c)),
        lru_entries(*final(c)) == Seq::<MemEntry>::empty(),
{
    c.clear()
}

/// The memory tier: a fixed-capacity cache of decoded images, evicting
/// the least recently used entry under capacity pressure.
pub struct MemoryTier {
    cache: lru::LruCache<String, CachedImage, RandomState>,
}

impl MemoryTier {
    /// The (identifier, image) entries, most recently used first.
    pub closed spec fn entries(&self) -> Seq<MemEntry> {
        lru_entries(self.cache)
    }

    /// The capacity fixed at construction.
    pub closed spec fn capacity(&self) -> nat {
        lru_capacity(self.cache)
    }

    /// Well-formed: distinct keys, within capacity, capacity positive.
    pub open spec fn wf(&self) -> bool {
        &&& distinct_keys(self.entries())
        &&& self.entries().len() <= self.capacity()
        &&& 1 <= self.capacity()
    }

    /// Creates an empty tier holding at most `capacity` entries.
    pub fn new(capacity: usize) -> (r: MemoryTier)
        requires
            1 <= capacity,
        ensures
            r.wf(),
            r.entries() == Seq::<MemEntry>::empty(),
            r.capacity() == capacity,
    {
        MemoryTier { cache: lru_new(capacity) }
    }

    /// Looks `identifier` up; a hit returns the image and promotes its
    /// entry to most recently used.
    pub fn get(&mut self, identifier: &String) -> (r: Option<CachedImage>)
        requires
            old(self).wf(),
        ensures
            final(self).wf(),
            final(self).capacity() == old(self).capacity(),
            final(self).entries() == spec_mem_touch(old(self).entries(), identifier@),
            match r {
                Some(img) => spec_mem_lookup(old(self).entries(), identifier@) == Some(img@),
                None => spec_mem_lookup(old(self).entries(), identifier@) is None,
            },
    {
        let ghost s = self.entries();
        let r = lru_get(&mut self.cache, identifier);
        proof {
            lemma_key_index(s, identifier@);
            if key_index(s, identifier@) >= 0 {
                lemma_promote_distinct(s, key_index(s, identifier@));
            }
        }
        r
    }

    /// Stores `image` under `identifier`, inserting or replacing; a full
    /// tier first evicts its least recently used entry.
    pub fn put(&mut self, identifier: String, image: CachedImage)
        requires
            old(self).wf(),
        ensures
            final(self).wf(),
            final(self).capacity() == old(self).capacity(),
            final(self).entries() == spec_mem_put(
                old(self).entries(),
                old(self).capacity(),
                identifier@,
                image@,
            ),
    {
        let ghost s = self.entries();
        let ghost cap = self.capacity();
        let ghost k = identifier@;
        let ghost v = image@;
        lru_put(&mut self.cache, identifier, image);
        proof {
            lemma_key_index(s, k);
            let i = key_index(s, k);
            if i >= 0 {
                lemma_promote_distinct(s, i);
                let t = seq![s[i]] + s.remove(i);
                let u = seq![(k, v)] + s.remove(i);
                assert(distinct_keys(u)) by {
                    assert(forall|j: int| 0 <= j < u.len() ==> #[trigger] u[j].0 == t[j].0);
                }
            } else if s.len() < cap {
                lemma_insert_front_distinct(s, (k, v));
            } else {
                lemma_drop_last_distinct(s);
                assert(forall|j: int|
                    0 <= j < s.drop_last().len() ==> #[trigger] s.drop_last()[j].0 != k);
                lemma_insert_front_distinct(s.drop_last(), (k, v));
            }
        }
    }

    /// The number of entries currently held.
    pub fn len(&self) -> (r: usize)
        ensures
            r == self.entries().len(),
    {
        lru_len(&self.cache)
    }

    /// Removes every entry; the capacity is unchanged.
    pub fn clear(&mut self)
        requires
            old(self).wf(),
        ensures
            final(self).wf(),
            final(self).capacity() == old(self).capacity(),
            final(self).entries() == Seq::<MemEntry>::empty(),
    {
        lru_clear(&mut self.cache);
    }
}

/// The memory tier never holds more entries than its configured
/// capacity.
pub proof fn lemma_memory_bounded(m: MemoryTier)
    requires
        m.wf(),
    ensures
        m.entries().len() <= m.capacity(),
{
}

/// Storing a fresh identifier in a full tier evicts exactly the least
/// recently used entry: the new entry enters at the front, the last
/// entry leaves, and every other entry stays, one place further back.
pub proof fn lemma_full_put_evicts_lru(
    s: Seq<MemEntry>,
    cap: nat,
    k: Seq<char>,
    v: (nat, nat, Seq<u8>),
)
    requires
        distinct_keys(s),
        s.len() == cap,
        1 <= cap,
        forall|i: int| 0 <= i < s.len() ==> #[trigger] s[i].0 != k,
    ensures
        spec_mem_put(s, cap, k, v) == seq![(k, v)] + s.drop_last(),
        spec_mem_put(s, cap, k, v).len() == cap,
        spec_mem_put(s, cap, k, v)[0] == (k, v),
        forall|i: int| 0 <= i < cap - 1 ==> #[trigger] spec_mem_put(s, cap, k, v)[i + 1] == s[i],
{
    lemma_key_index(s, k);
    let t = spec_mem_put(s, cap, k, v);
    assert(key_index(s, k) < 0) by {
        if key_index(s, k) >= 0 {
            assert(s[key_index(s, k)].0 == k);
        }
    }
    assert(t == seq![(k, v)] + s.drop_last());
    assert forall|i: int| 0 <= i < cap - 1 implies #[trigger] t[i + 1] == s[i] by {
        assert(t[i + 1] == s.drop_last()[i]);
    }
}

} // verus!
