//! The cache facade: the public surface combining the memory tier and
//! the bucket/key store behind bucket/key semantics, with statistics and
//! maintenance operations.
//!
//! A cache is created with an optional base directory.  Without one,
//! persistent storage is disabled: writes are no-ops and reads are
//! empty, while the image memory tier keeps working.

use crate::addr::digest_of;
use crate::addr::hex16;
use crate::addr::image_key;
use crate::decode::decode_image;
use crate::decode::decode_of;
use crate::decode::CachedImage;
use crate::disk::bucket_addrs;
use crate::disk::cap_u64;
use crate::disk::sum_sizes;
use crate::disk::DiskStore;
use crate::disk::EntryAddr;
use crate::disk::EntryTriple;
use crate::memory::spec_mem_lookup;
use crate::memory::spec_mem_put;
use crate::memory::spec_mem_touch;
use crate::memory::MemEntry;
use crate::memory::MemoryTier;
use vstd::prelude::*;
use vstd::string::StringSliceAdditionalSpecFns;

verus! {

/// The number of decoded images the memory tier holds at most.
pub const IMAGE_CACHE_SIZE: usize = 256;

/// What a read of (`b`, `k`) yields from disk state `disk`: the stored
/// bytes, or nothing when the address is absent or no base directory is
/// configured.
pub open spec fn spec_get(
    disk: Map<EntryAddr, Seq<u8>>,
    has_base: bool,
    b: Seq<char>,
    k: Seq<char>,
) -> Option<Seq<u8>> {
    if has_base && disk.contains_key((b, k)) {
        Some(disk[(b, k)])
    } else {
        None
    }
}

/// Disk state after writing `v` at (`b`, `k`): unchanged when no base
/// directory is configured.
pub open spec fn spec_set(
    disk: Map<EntryAddr, Seq<u8>>,
    has_base: bool,
    b: Seq<char>,
    k: Seq<char>,
    v: Seq<u8>,
) -> Map<EntryAddr, Seq<u8>> {
    if has_base {
        disk.insert((b, k), v)
    } else {
        disk
    }
}

/// Disk state after clearing bucket `b`: every address in the bucket is
/// gone; unchanged when no base directory is configured.
pub open spec fn spec_clear_bucket(
    disk: Map<EntryAddr, Seq<u8>>,
    has_base: bool,
    b: Seq<char>,
) -> Map<EntryAddr, Seq<u8>> {
    if has_base {
        disk.remove_keys(bucket_addrs(b))
    } else {
        disk
    }
}

/// An aggregate snapshot of the cache: total stored bytes and entry
/// count on disk, and the memory tier's occupancy.
#[derive(Clone, Debug)]
pub struct CacheStats {
    pub total_size: u64,
    pub total_entries: u64,
    pub image_cache_entries: u64,
}

/// The hybrid memory/disk cache.
pub struct WebApiCache {
    base: Option<String>,
    images: MemoryTier,
    store: DiskStore,
}

impl WebApiCache {
    /// Whether a base directory was configured at construction.
    pub closed spec fn has_base(&self) -> bool {
        self.base is Some
    }

    /// The abstract disk state: a map from (bucket, key) to bytes.
    pub closed spec fn disk(&self) -> Map<EntryAddr, Seq<u8>> {
        self.store@
    }

    /// The disk entries as triples, in storage order.
    pub closed spec fn disk_entries(&self) -> Seq<EntryTriple> {
        self.store.entries_seq()
    }

    /// The memory tier's entries, most recently used first.
    pub closed spec fn mem(&self) -> Seq<MemEntry> {
        self.images.entries()
    }

    /// The memory tier's capacity.
    pub closed spec fn mem_capacity(&self) -> nat {
        self.images.capacity()
    }

    /// Well-formed: both tiers hold their invariants.
    pub closed spec fn wf(&self) -> bool {
        self.store.wf() && self.images.wf()
    }

    /// The statistics the cache reports for its current state.
    pub open spec fn spec_stats(&self) -> CacheStats {
        CacheStats {
            total_size: cap_u64(sum_sizes(self.disk_entries())),
            total_entries: cap_u64(self.disk_entries().len() as nat),
            image_cache_entries: cap_u64(self.mem().len() as nat),
        }
    }

    /// Creates a cache.  With `base == None` persistent storage is
    /// disabled and only the image memory tier operates.
    pub fn new(base: Option<String>) -> (r: WebApiCache)
        ensures
            r.wf(),
            r.has_base() == (base is Some),
            r.disk() == Map::<EntryAddr, Seq<u8>>::empty(),
            r.disk_entries() == Seq::<EntryTriple>::empty(),
            r.mem() == Seq::<MemEntry>::empty(),
            r.mem_capacity() == IMAGE_CACHE_SIZE,
    {
        WebApiCache { base, images: MemoryTier::new(IMAGE_CACHE_SIZE), store: DiskStore::new() }
    }

    /// Looks a decoded image up in the memory tier; a hit promotes it to
    /// most recently used.  The disk is not consulted.
    pub fn get_image(&mut self, uri: &String) -> (r: Option<CachedImage>)
        requires
            old(self).wf(),
        ensures
            final(self).wf(),
            final(self).mem() == spec_mem_touch(old(self).mem(), uri@),
            match r {
                Some(img) => spec_mem_lookup(old(self).mem(), uri@) == Some(img@),
                None => spec_mem_lookup(old(self).mem(), uri@) is None,
            },
            final(self).mem_capacity() == old(self).mem_capacity(),
            final(self).disk() == old(self).disk(),
            final(self).disk_entries() == old(self).disk_entries(),
            final(self).has_base() == old(self).has_base(),
    {
        self.images.get(uri)
    }

    /// Stores a decoded image in the memory tier, evicting the least
    /// recently used entry when full.  The disk is not written.
    pub fn set_image(&mut self, uri: String, image: CachedImage)
        requires
            old(self).wf(),
        ensures
            final(self).wf(),
            final(self).mem() == spec_mem_put(
                old(self).mem(),
                old(self).mem_capacity(),
                uri@,
                image@,
            ),
            final(self).mem_capacity() == old(self).mem_capacity(),
            final(self).disk() == old(self).disk(),
            final(self).disk_entries() == old(self).disk_entries(),
            final(self).has_base() == old(self).has_base(),
    {
        self.images.put(uri, image);
    }

    /// The bytes stored under `key` in `bucket`, or nothing when the
    /// address is absent or no base directory is configured.
    pub fn get(&self, bucket: &str, key: &str) -> (r: Option<Vec<u8>>)
        requires
            self.wf(),
        ensures
            match r {
                Some(v) => spec_get(self.disk(), self.has_base(), bucket@, key@) == Some(v@),
                None => spec_get(self.disk(), self.has_base(), bucket@, key@) is None,
            },
    {
        if self.base.is_some() {
            self.store.get(&bucket.to_owned(), &key.to_owned())
        } else {
            None
        }
    }

    /// Stores `value` under `key` in `bucket`, overwriting prior
    /// content; a no-op when no base directory is configured.
    pub fn set(&mut self, bucket: &str, key: &str, value: &[u8])
        requires
            old(self).wf(),
        ensures
            final(self).wf(),
            final(self).disk() == spec_set(
                old(self).disk(),
                old(self).has_base(),
                bucket@,
                key@,
                value@,
            ),
            final(self).mem() == old(self).mem(),
            final(self).mem_capacity() == old(self).mem_capacity(),
            final(self).has_base() == old(self).has_base(),
            final(self).disk_entries().len() == if old(self).has_base() && !old(self).disk()
                .contains_key((bucket@, key@)) {
                old(self).disk_entries().len() + 1
            } else {
                old(self).disk_entries().len()
            },
    {
        if self.base.is_some() {
            self.store.put(&bucket.to_owned(), &key.to_owned(), value);
        }
    }

    /// Reads the image stored on disk for `uri` and decodes it.  Any
    /// failure — no base directory, missing entry, undecodable bytes —
    /// yields nothing, never an error.
    pub fn get_image_from_disk(&self, uri: &str) -> (r: Option<CachedImage>)
        requires
            self.wf(),
        ensures
            ({
                let stored = spec_get(
                    self.disk(),
                    self.has_base(),
                    "images"@,
                    hex16(digest_of(uri.spec_bytes())),
                );
                match stored {
                    Some(bytes) => match decode_of(bytes) {
                        Some(t) => r matches Some(img) && img@ == (t.0 as nat, t.1 as nat, t.2)
                            && img.wf(),
                        None => r is None,
                    },
                    None => r is None,
                }
            }),
    {
        let key = image_key(uri);
        match self.get("images", key.as_str()) {
            Some(bytes) => decode_image(bytes.as_slice()),
            None => None,
        }
    }

    /// Writes raw image bytes to the disk's image bucket under the key
    /// derived from `uri`; a no-op when no base directory is configured.
    pub fn save_image_to_disk(&mut self, uri: &str, data: &[u8])
        requires
            old(self).wf(),
        ensures
            final(self).wf(),
            final(self).disk() == spec_set(
                old(self).disk(),
                old(self).has_base(),
                "images"@,
                hex16(digest_of(uri.spec_bytes())),
                data@,
            ),
            final(self).mem() == old(self).mem(),
            final(self).mem_capacity() == old(self).mem_capacity(),
            final(self).has_base() == old(self).has_base(),
    {
        let key = image_key(uri);
        self.set("images", key.as_str(), data);
    }

    /// The cache's statistics: stored bytes and entries across all
    /// buckets, and the memory tier's occupancy.
    pub fn get_stats(&self) -> (r: CacheStats)
        requires
            self.wf(),
        ensures
            r == self.spec_stats(),
            r.total_entries == cap_u64(self.disk().len()),
    {
        proof {
            self.store.lemma_entry_count();
        }
        let (total_size, total_entries) = self.store.stats();
        let image_cache_entries = self.images.len() as u64;
        CacheStats { total_size, total_entries, image_cache_entries }
    }

    /// Clears every disk bucket and the memory tier.
    pub fn clear_all(&mut self)
        requires
            old(self).wf(),
        ensures
            final(self).wf(),
            final(self).disk() == Map::<EntryAddr, Seq<u8>>::empty(),
            final(self).disk_entries() == Seq::<EntryTriple>::empty(),
            final(self).mem() == Seq::<MemEntry>::empty(),
            final(self).mem_capacity() == old(self).mem_capacity(),
            final(self).has_base() == old(self).has_base(),
    {
        self.store.clear_all();
        self.images.clear();
    }

    /// Clears one disk bucket; the memory tier and other buckets are
    /// untouched.
    pub fn clear_bucket(&mut self, bucket: &str)
        requires
            old(self).wf(),
        ensures
            final(self).wf(),
            final(self).disk() == spec_clear_bucket(
                old(self).disk(),
                old(self).has_base(),
                bucket@,
            ),
            final(self).mem() == old(self).mem(),
            final(self).mem_capacity() == old(self).mem_capacity(),
            final(self).has_base() == old(self).has_base(),
    {
        if self.base.is_some() {
            self.store.clear_bucket(&bucket.to_owned());
        }
    }
}

/// One top-level item under a cache's base directory, as a directory
/// walk reports it: a plain file with its size, or a bucket directory
/// with the sizes of the files directly inside it.
///
/// The walk is exactly two levels deep, matching the store's layout;
/// anything nested deeper is not counted.
pub enum ListingEntry {
    File { size: u64 },
    Bucket { sizes: Vec<u64> },
}

/// The sum of a sequence of sizes.
pub open spec fn seq_sum(s: Seq<u64>) -> nat
    decreases s.len(),
{
    if s.len() == 0 {
        0
    } else {
        seq_sum(s.drop_last()) + s.last() as nat
    }
}

/// The bytes a listing entry contributes to the total size.
pub open spec fn listing_size(e: ListingEntry) -> nat {
    match e {
        ListingEntry::File { size } => size as nat,
        ListingEntry::Bucket { sizes } => seq_sum(sizes@),
    }
}

/// The entries a listing entry contributes to the total count.
pub open spec fn listing_count(e: ListingEntry) -> nat {
    match e {
        ListingEntry::File { size } => 1,
        ListingEntry::Bucket { sizes } => sizes@.len(),
    }
}

/// The total size described by a listing.
pub open spec fn listing_sizes_total(s: Seq<ListingEntry>) -> nat
    decreases s.len(),
{
    if s.len() == 0 {
        0
    } else {
        listing_sizes_total(s.drop_last()) + listing_size(s.last())
    }
}

/// The total entry count described by a listing.
pub open spec fn listing_count_total(s: Seq<ListingEntry>) -> nat
    decreases s.len(),
{
    if s.len() == 0 {
        0
    } else {
        listing_count_total(s.drop_last()) + listing_count(s.last())
    }
}

/// Sums a vector of sizes, capped at the largest 64-bit count.
fn sum_sat(sizes: &Vec<u64>) -> (r: u64)
    ensures
        r == cap_u64(seq_sum(sizes@)),
{
    let mut total: u64 = 0;
    let mut i: usize = 0;
    while i < sizes.len()
        invariant
            i <= sizes@.len(),
            total == cap_u64(seq_sum(sizes@.take(i as int))),
        decreases sizes@.len() - i,
    {
        proof {
            assert(sizes@.take(i + 1).drop_last() =~= sizes@.take(i as int));
            assert(sizes@.take(i + 1).last() == sizes@[i as int]);
        }
        total = total.saturating_add(sizes[i]);
        i = i + 1;
    }
    proof {
        assert(sizes@.take(sizes@.len() as int) =~= sizes@);
    }
    total
}

/// Aggregates a directory listing of the cache's base into the total
/// stored size and entry count, exactly as the two-level layout is
/// counted: top-level files directly, bucket directories one level in.
pub fn stats_of_listing(entries: &Vec<ListingEntry>) -> (r: (u64, u64))
    ensures
        r.0 == cap_u64(listing_sizes_total(entries@)),
        r.1 == cap_u64(listing_count_total(entries@)),
{
    let mut total_size: u64 = 0;
    let mut total_entries: u64 = 0;
    let mut i: usize = 0;
    while i < entries.len()
        invariant
            i <= entries@.len(),
            total_size == cap_u64(listing_sizes_total(entries@.take(i as int))),
            total_entries == cap_u64(listing_count_total(entries@.take(i as int))),
        decreases entries@.len() - i,
    {
        proof {
            assert(entries@.take(i + 1).drop_last() =~= entries@.take(i as int));
            assert(entries@.take(i + 1).last() == entries@[i as int]);
        }
        match &entries[i] {
            ListingEntry::File { size } => {
                total_size = total_size.saturating_add(*size);
                total_entries = total_entries.saturating_add(1);
            },
            ListingEntry::Bucket { sizes } => {
                total_size = total_size.saturating_add(sum_sat(sizes));
                total_entries = total_entries.saturating_add(sizes.len() as u64);
            },
        }
        i = i + 1;
    }
    proof {
        assert(entries@.take(entries@.len() as int) =~= entries@);
    }
    (total_size, total_entries)
}

/// Round trip: writing bytes at an address and reading the same address
/// back yields exactly those bytes, whatever was stored before.
pub proof fn lemma_set_then_get(
    disk: Map<EntryAddr, Seq<u8>>,
    b: Seq<char>,
    k: Seq<char>,
    v: Seq<u8>,
)
    ensures
        spec_get(spec_set(disk, true, b, k, v), true, b, k) == Some(v),
{
}

/// A write at one address leaves every other address as it was.
pub proof fn lemma_set_other_addr(
    disk: Map<EntryAddr, Seq<u8>>,
    b: Seq<char>,
    k: Seq<char>,
    v: Seq<u8>,
    b2: Seq<char>,
    k2: Seq<char>,
)
    requires
        (b2, k2) != (b, k),
    ensures
        spec_get(spec_set(disk, true, b, k, v), true, b2, k2) == spec_get(disk, true, b2, k2),
{
}

/// After a bucket is cleared, every key in it reads empty, and entries
/// in other buckets are unaffected.
pub proof fn lemma_clear_bucket_effect(
    disk: Map<EntryAddr, Seq<u8>>,
    b: Seq<char>,
    b2: Seq<char>,
    k: Seq<char>,
)
    ensures
        spec_get(spec_clear_bucket(disk, true, b), true, b, k) is None,
        b2 != b ==> spec_get(spec_clear_bucket(disk, true, b), true, b2, k) == spec_get(
            disk,
            true,
            b2,
            k,
        ),
{
}

/// With no base directory configured, every read yields empty, for
/// every bucket and key.
pub proof fn lemma_get_without_base(disk: Map<EntryAddr, Seq<u8>>, b: Seq<char>, k: Seq<char>)
    ensures
        spec_get(disk, false, b, k) is None,
{
}

/// After everything is cleared, the statistics report zero stored
/// bytes, zero entries, and an empty memory tier.
pub proof fn lemma_stats_after_clear_all(c: WebApiCache)
    requires
        c.disk_entries() == Seq::<EntryTriple>::empty(),
        c.mem() == Seq::<MemEntry>::empty(),
    ensures
        c.spec_stats() == (CacheStats { total_size: 0, total_entries: 0, image_cache_entries: 0 }),
{
}

} // verus!
