use webapi_cache::addr::{format_key, image_key};
use webapi_cache::data::{AlbumType, TrackPlaylistsController};
use webapi_cache::cache::{stats_of_listing, ListingEntry};
use webapi_cache::decode::{decode_image, CachedImage};
use webapi_cache::hash_uri;
use webapi_cache::memory::MemoryTier;
use webapi_cache::WebApiCache;

/// A 1x1 RGBA PNG.
const TINY_PNG: [u8; 70] = [
    137, 80, 78, 71, 13, 10, 26, 10, 0, 0, 0, 13, 73, 72, 68, 82, 0, 0, 0, 1, 0, 0, 0, 1, 8, 6,
    0, 0, 0, 31, 21, 196, 137, 0, 0, 0, 13, 73, 68, 65, 84, 120, 218, 99, 100, 248, 207, 80, 15,
    0, 3, 134, 1, 128, 90, 52, 125, 107, 0, 0, 0, 0, 73, 69, 78, 68, 174, 66, 96, 130,
];

fn tiny_image(sample: u8) -> CachedImage {
    CachedImage {
        width: 1,
        height: 1,
        pixels: vec![sample, sample, sample, 255],
    }
}

#[test]
fn digest_is_stable_and_exact() {
    // The digest of the empty identifier is the FNV offset basis.
    assert_eq!(hash_uri(""), 0xcbf29ce484222325);
    assert_eq!(hash_uri("a"), 0xaf63dc4c8601ec8c);

    // Same input, same output, across repeated calls.
    let uri = "https://example.com/image/1";
    let first = hash_uri(uri);
    let second = hash_uri(uri);
    assert_eq!(first, second);
    assert_eq!(first, 0x52d89edc48f71781);
}

#[test]
fn key_is_sixteen_lowercase_hex_digits() {
    let key = image_key("https://example.com/image/1");
    assert_eq!(key, "52d89edc48f71781");

    let zero_key = format_key(0);
    assert_eq!(zero_key, "0000000000000000");
    let max_key = format_key(u64::MAX);
    assert_eq!(max_key, "ffffffffffffffff");

    for uri in ["", "a", "some longer identifier with spaces"] {
        let key = image_key(uri);
        assert_eq!(key.len(), 16);
        assert!(key
            .chars()
            .all(|c| c.is_ascii_hexdigit() && !c.is_ascii_uppercase()));
    }
}

#[test]
fn memory_tier_evicts_least_recently_used() {
    let mut tier = MemoryTier::new(3);

    tier.put(String::from("A"), tiny_image(1));
    tier.put(String::from("B"), tiny_image(2));
    tier.put(String::from("C"), tiny_image(3));
    assert_eq!(tier.len(), 3);

    // Touch A so that B becomes the least recently used entry.
    assert!(tier.get(&String::from("A")).is_some());

    // Inserting a fourth distinct identifier evicts exactly B.
    tier.put(String::from("D"), tiny_image(4));
    assert_eq!(tier.len(), 3);
    assert!(tier.get(&String::from("B")).is_none());
    assert_eq!(tier.get(&String::from("A")).expect("kept").pixels[0], 1);
    assert_eq!(tier.get(&String::from("C")).expect("kept").pixels[0], 3);
    assert_eq!(tier.get(&String::from("D")).expect("kept").pixels[0], 4);
}

#[test]
fn memory_tier_never_exceeds_capacity() {
    let mut tier = MemoryTier::new(2);
    for (i, name) in ["v", "w", "x", "y", "z"].iter().enumerate() {
        tier.put(String::from(*name), tiny_image(i as u8));
        assert!(tier.len() <= 2);
    }
    assert_eq!(tier.len(), 2);
}

#[test]
fn memory_tier_replaces_existing_key() {
    let mut tier = MemoryTier::new(2);
    tier.put(String::from("k"), tiny_image(1));
    tier.put(String::from("k"), tiny_image(9));
    assert_eq!(tier.len(), 1);
    assert_eq!(tier.get(&String::from("k")).expect("present").pixels[0], 9);
}

#[test]
fn listing_stats_follow_two_level_layout() {
    let listing = vec![
        ListingEntry::File { size: 10 },
        ListingEntry::Bucket {
            sizes: vec![1, 2, 3],
        },
    ];
    assert_eq!(stats_of_listing(&listing), (16, 4));

    let empty: Vec<ListingEntry> = Vec::new();
    assert_eq!(stats_of_listing(&empty), (0, 0));

    // Sizes beyond the representable total saturate instead of wrapping.
    let huge = vec![
        ListingEntry::File { size: u64::MAX },
        ListingEntry::File { size: 5 },
    ];
    assert_eq!(stats_of_listing(&huge), (u64::MAX, 2));
}

#[test]
fn decode_accepts_valid_image_and_rejects_garbage() {
    let decoded = decode_image(&TINY_PNG).expect("valid image");
    assert_eq!(decoded.width, 1);
    assert_eq!(decoded.height, 1);
    assert_eq!(decoded.pixels.len(), 4);

    assert!(decode_image(b"definitely not an image").is_none());
    assert!(decode_image(b"").is_none());
}

#[test]
fn image_disk_round_trip_decodes() {
    let mut cache = WebApiCache::new(Some(String::from("base")));
    let uri = "https://example.com/cover.png";

    cache.save_image_to_disk(uri, &TINY_PNG);

    // The blob sits under the digest-derived key in the image bucket.
    let key = image_key(uri);
    assert_eq!(cache.get("images", &key).expect("stored"), TINY_PNG);

    let decoded = cache.get_image_from_disk(uri).expect("decodes");
    assert_eq!(decoded.width, 1);
    assert_eq!(decoded.height, 1);
    assert_eq!(decoded.pixels.len(), 4);
}

#[test]
fn undecodable_disk_bytes_read_as_empty() {
    let mut cache = WebApiCache::new(Some(String::from("base")));
    let uri = "https://example.com/broken.png";

    cache.save_image_to_disk(uri, b"corrupted bytes");
    assert!(cache.get_image_from_disk(uri).is_none());
}

#[test]
fn album_type_defaults_to_album() {
    assert_eq!(AlbumType::default(), AlbumType::Album);
}

#[test]
fn controller_remembers_its_track() {
    let controller = TrackPlaylistsController::new(String::from("track-17"));
    assert_eq!(controller.track_id, "track-17");
}

#[test]
fn image_from_disk_without_base_reads_empty() {
    let cache = WebApiCache::new(None);
    assert!(cache.get_image_from_disk("https://example.com/x").is_none());
}
