use webapi_cache::WebApiCache;

#[test]
fn test_cache_basic_operations() {
    let mut cache = WebApiCache::new(Some(String::from("cache-base")));

    // Test setting and getting data
    let test_data = b"test data";
    cache.set("test-bucket", "test-key", test_data);

    // Verify data was stored
    let stats = cache.get_stats();
    assert!(stats.total_entries > 0);
    assert!(stats.total_size > 0);

    // Test getting data
    if let Some(content) = cache.get("test-bucket", "test-key") {
        let content: Vec<u8> = content.into_iter().take(100).collect();
        assert_eq!(content, test_data);
    } else {
        panic!("Failed to retrieve cached data");
    }

    // Test clearing bucket
    cache.clear_bucket("test-bucket");
    let stats_after_clear = cache.get_stats();
    assert_eq!(stats_after_clear.total_entries, 0);
}

#[test]
fn test_cache_clear_all() {
    let mut cache = WebApiCache::new(Some(String::from("cache-base")));

    // Add some test data
    cache.set("bucket1", "key1", b"data1");
    cache.set("bucket2", "key2", b"data2");

    let stats = cache.get_stats();
    assert!(stats.total_entries > 0);

    // Clear all
    cache.clear_all();

    let stats_after_clear = cache.get_stats();
    assert_eq!(stats_after_clear.total_entries, 0);
    assert_eq!(stats_after_clear.total_size, 0);
}

#[test]
fn round_trip_returns_exact_bytes() {
    let mut cache = WebApiCache::new(Some(String::from("base")));

    cache.set("responses", "alpha", b"some payload");
    assert_eq!(
        cache.get("responses", "alpha").expect("stored entry"),
        b"some payload"
    );

    cache.set("responses", "empty", b"");
    assert_eq!(cache.get("responses", "empty").expect("stored entry"), b"");

    // Overwriting replaces the content entirely.
    cache.set("responses", "alpha", b"new");
    assert_eq!(cache.get("responses", "alpha").expect("stored entry"), b"new");

    // A missing key in a present bucket reads empty.
    assert!(cache.get("responses", "missing").is_none());
    // A missing bucket reads empty.
    assert!(cache.get("nowhere", "alpha").is_none());
}

#[test]
fn clear_bucket_leaves_other_buckets() {
    let mut cache = WebApiCache::new(Some(String::from("base")));

    cache.set("bucket-a", "k1", b"one");
    cache.set("bucket-a", "k2", b"two");
    cache.set("bucket-b", "k1", b"three");

    cache.clear_bucket("bucket-a");

    assert!(cache.get("bucket-a", "k1").is_none());
    assert!(cache.get("bucket-a", "k2").is_none());
    assert_eq!(cache.get("bucket-b", "k1").expect("untouched"), b"three");
}

#[test]
fn no_base_reads_empty_and_writes_are_noops() {
    let mut cache = WebApiCache::new(None);

    assert!(cache.get("any", "key").is_none());
    assert!(cache.get("", "").is_none());

    cache.set("any", "key", b"bytes");
    assert!(cache.get("any", "key").is_none());

    let stats = cache.get_stats();
    assert_eq!(stats.total_size, 0);
    assert_eq!(stats.total_entries, 0);
}

#[test]
fn stats_count_bytes_and_entries_exactly() {
    let mut cache = WebApiCache::new(Some(String::from("base")));

    cache.set("b", "k", b"abc");
    let stats = cache.get_stats();
    assert_eq!(stats.total_size, 3);
    assert_eq!(stats.total_entries, 1);

    // Overwriting replaces, it does not accumulate.
    cache.set("b", "k", b"zz");
    let stats = cache.get_stats();
    assert_eq!(stats.total_size, 2);
    assert_eq!(stats.total_entries, 1);

    cache.set("b", "k2", b"defgh");
    let stats = cache.get_stats();
    assert_eq!(stats.total_size, 7);
    assert_eq!(stats.total_entries, 2);
}

#[test]
fn clear_all_empties_memory_tier_too() {
    let mut cache = WebApiCache::new(Some(String::from("base")));

    let image = webapi_cache::decode::CachedImage {
        width: 1,
        height: 1,
        pixels: vec![9u8, 9, 9, 9],
    };
    cache.set_image(String::from("uri-1"), image);
    cache.set("b", "k", b"abc");

    assert_eq!(cache.get_stats().image_cache_entries, 1);

    cache.clear_all();

    let stats = cache.get_stats();
    assert_eq!(stats.total_size, 0);
    assert_eq!(stats.total_entries, 0);
    assert_eq!(stats.image_cache_entries, 0);
    assert!(cache.get_image(&String::from("uri-1")).is_none());
}

#[test]
fn clear_bucket_keeps_memory_tier() {
    let mut cache = WebApiCache::new(Some(String::from("base")));

    let image = webapi_cache::decode::CachedImage {
        width: 1,
        height: 1,
        pixels: vec![7u8, 7, 7, 7],
    };
    cache.set_image(String::from("uri-2"), image);
    cache.clear_bucket("images");

    let held = cache.get_image(&String::from("uri-2")).expect("still cached");
    assert_eq!(held.pixels, vec![7u8, 7, 7, 7]);
}

#[test]
fn memory_tier_round_trip_through_facade() {
    let mut cache = WebApiCache::new(None);

    let image = webapi_cache::decode::CachedImage {
        width: 2,
        height: 1,
        pixels: vec![1u8, 2, 3, 4, 5, 6, 7, 8],
    };
    cache.set_image(String::from("uri-3"), image);

    let held = cache.get_image(&String::from("uri-3")).expect("cached");
    assert_eq!(held.width, 2);
    assert_eq!(held.height, 1);
    assert_eq!(held.pixels, vec![1u8, 2, 3, 4, 5, 6, 7, 8]);

    assert!(cache.get_image(&String::from("uri-other")).is_none());
}
