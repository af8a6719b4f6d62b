use bytes::Bytes;
use hls_vod::cache::{
    init_segment_cache, segment_cache_stats, CacheEntry, SegmentCache, SegmentCacheConfig,
};

const SECOND: u64 = 1_000_000_000;

#[test]
fn test_cache_entry_creation() {
    let data = Bytes::from("test data");
    let entry = CacheEntry::new(data.clone());

    assert_eq!(entry.data, data);
    assert_eq!(entry.access_count, 1);
    assert!(entry.age_secs() < 2);
}

#[test]
fn test_cache_entry_touch() {
    let data = Bytes::from("test");
    let mut entry = CacheEntry::new(data);

    entry.touch();

    assert_eq!(entry.access_count, 2);
    assert!(entry.last_accessed >= entry.created_at);
}

#[test]
fn test_cache_insert_get() {
    let mut cache = SegmentCache::new(SegmentCacheConfig::default());
    let data = Bytes::from("segment data");

    cache.insert("stream1", "video:0", data.clone());

    assert!(cache.contains("stream1", "video:0"));
    assert_eq!(cache.get("stream1", "video:0"), Some(data));
}

#[test]
fn test_cache_miss() {
    let mut cache = SegmentCache::new(SegmentCacheConfig::default());

    assert!(!cache.contains("stream1", "video:0"));
    assert_eq!(cache.get("stream1", "video:0"), None);
}

#[test]
fn test_cache_remove_stream() {
    let mut cache = SegmentCache::new(SegmentCacheConfig::default());

    cache.insert("stream1", "video:0", Bytes::from("v0"));
    cache.insert("stream1", "video:1", Bytes::from("v1"));
    cache.insert("stream1", "audio:0", Bytes::from("a0"));
    cache.insert("stream2", "video:0", Bytes::from("v0"));

    cache.remove_stream("stream1");

    assert!(!cache.contains("stream1", "video:0"));
    assert!(!cache.contains("stream1", "video:1"));
    assert!(!cache.contains("stream1", "audio:0"));
    assert!(cache.contains("stream2", "video:0"));
}

#[test]
fn test_cache_stats() {
    let mut cache = SegmentCache::new(SegmentCacheConfig::default());

    cache.insert("stream1", "video:0", Bytes::from("data"));

    let stats = cache.stats();
    assert_eq!(stats.entry_count, 1);
    assert!(stats.total_size_bytes > 0);
}

#[test]
fn test_cache_make_key() {
    let key = SegmentCache::make_key("abc123", "video:5");
    assert_eq!(key, "abc123:video:5");
}

#[test]
fn test_cache_len_and_empty() {
    let mut cache = SegmentCache::new(SegmentCacheConfig::default());
    assert!(cache.is_empty());
    assert_eq!(cache.len(), 0);

    cache.insert("s1", "v:0", Bytes::from("x"));
    assert!(!cache.is_empty());
    assert_eq!(cache.len(), 1);
}

fn small_cache() -> SegmentCache {
    SegmentCache::new(SegmentCacheConfig {
        max_memory_mb: 1,
        max_segments: 100,
        ttl_secs: 300,
        lookahead: 2,
    })
}

fn kilobytes(n: usize) -> Bytes {
    Bytes::from(vec![7u8; n * 1024])
}

#[test]
fn eviction_takes_the_least_recently_used() {
    let mut cache = small_cache();
    cache.insert_at("s", "a", kilobytes(400), 1 * SECOND);
    cache.insert_at("s", "b", kilobytes(400), 2 * SECOND);
    assert!(cache.get_at("s", "a", 3 * SECOND).is_some());
    // 1200 KB do not fit; freeing half of the limit takes both of the older ones.
    cache.insert_at("s", "c", kilobytes(400), 4 * SECOND);
    assert!(!cache.contains("s", "a"));
    assert!(!cache.contains("s", "b"));
    assert!(cache.contains("s", "c"));
    assert_eq!(cache.memory_usage(), 400 * 1024);

    let mut cache = small_cache();
    cache.insert_at("s", "a", kilobytes(600), 1 * SECOND);
    cache.insert_at("s", "b", kilobytes(300), 2 * SECOND);
    cache.insert_at("s", "c", kilobytes(200), 3 * SECOND);
    assert!(!cache.contains("s", "a"));
    assert!(cache.contains("s", "b"));
    assert!(cache.contains("s", "c"));
    assert_eq!(cache.memory_usage(), 500 * 1024);
}

#[test]
fn eviction_drops_what_has_outlived_its_time() {
    let mut cache = small_cache();
    cache.insert_at("s", "old", kilobytes(600), 0);
    cache.insert_at("s", "new", kilobytes(300), 200 * SECOND);
    cache.insert_at("s", "next", kilobytes(300), 301 * SECOND);
    assert!(!cache.contains("s", "old"));
    assert!(cache.contains("s", "new"));
    assert!(cache.contains("s", "next"));
}

#[test]
fn an_entry_expires_only_behind_its_time() {
    let entry = CacheEntry::new_at(Bytes::from("x"), 10 * SECOND);
    assert_eq!(entry.age_secs_at(9 * SECOND), 0);
    assert_eq!(entry.age_secs_at(309 * SECOND), 299);
    assert!(!entry.is_expired_at(310 * SECOND, 300));
    assert!(entry.is_expired_at(311 * SECOND, 300));
}

fn cache_for(max_segments: usize) -> SegmentCache {
    SegmentCache::new(SegmentCacheConfig {
        max_memory_mb: 1,
        max_segments,
        ttl_secs: 300,
        lookahead: 0,
    })
}

#[test]
fn the_count_of_segments_is_a_maximum() {
    let mut cache = cache_for(1);
    cache.insert("s", "a", Bytes::from("x"));
    cache.insert("s", "b", Bytes::from("y"));
    assert_eq!(cache.len(), 1);
    assert!(cache.contains("s", "b"));
    assert_eq!(cache.memory_usage(), 1);

    let mut cache = cache_for(2);
    cache.insert_at("s", "a", kilobytes(1), 1 * SECOND);
    cache.insert_at("s", "b", kilobytes(1), 2 * SECOND);
    assert!(cache.get_at("s", "a", 3 * SECOND).is_some());
    cache.insert_at("s", "c", kilobytes(1), 4 * SECOND);
    assert_eq!(cache.len(), 2);
    assert!(cache.contains("s", "a"));
    assert!(!cache.contains("s", "b"));
    // What has expired goes first.
    cache.insert_at("s", "d", kilobytes(1), 303 * SECOND);
    assert!(!cache.contains("s", "a"));
    assert!(cache.contains("s", "c"));
    // A segment that is there keeps its place.
    cache.insert_at("s", "c", kilobytes(1), 304 * SECOND);
    assert_eq!(cache.len(), 2);
    assert!(cache.contains("s", "d"));
}

#[test]
fn no_segments_are_kept_where_there_may_be_none() {
    let mut cache = cache_for(0);
    cache.insert_at("s", "a", kilobytes(1), 0);
    assert_eq!(cache.len(), 0);
    assert_eq!(cache.memory_usage(), 0);
    assert!(cache.get_at("s", "a", 0).is_none());
}

#[test]
fn the_memory_is_a_maximum() {
    let mut cache = small_cache();
    cache.insert_at("s", "a", Bytes::from(vec![0u8; 530_000]), 1 * SECOND);
    cache.insert_at("s", "b", Bytes::from(vec![0u8; 500_000]), 2 * SECOND);
    cache.insert_at("s", "c", Bytes::from(vec![0u8; 1_000_000]), 3 * SECOND);
    assert_eq!(cache.memory_usage(), 1_000_000);
    assert_eq!(cache.len(), 1);
    // A segment that is larger than the memory stays alone.
    cache.insert_at("s", "d", kilobytes(2000), 4 * SECOND);
    assert_eq!(cache.len(), 1);
    assert!(cache.contains("s", "d"));
}

#[test]
fn a_replaced_entry_is_not_counted() {
    let mut cache = small_cache();
    cache.insert_at("s", "a", kilobytes(10), 0);
    cache.insert_at("s", "a", kilobytes(20), 0);
    assert_eq!(cache.len(), 1);
    assert_eq!(cache.memory_usage(), 20 * 1024);
    assert_eq!(cache.stats_at(0).total_size_bytes, 20 * 1024);
}

#[test]
fn a_new_entry_has_not_expired() {
    assert!(!CacheEntry::new(Bytes::from("x")).is_expired(300));
    assert!(CacheEntry::new_at(Bytes::from("x"), 0).is_expired(300));
}

#[test]
fn removing_a_stream_goes_by_prefix() {
    let mut cache = small_cache();
    cache.insert("stream1", "v", Bytes::from("1"));
    cache.insert("stream10", "v", Bytes::from("10"));
    cache.insert("stream2", "v", Bytes::from("2"));
    cache.remove_stream("stream1");
    assert!(!cache.contains("stream10", "v"));
    assert!(cache.contains("stream2", "v"));
}

#[test]
fn statistics_are_exact() {
    let mut cache = small_cache();
    cache.insert_at("s", "a", Bytes::from("abc"), 10 * SECOND);
    cache.insert_at("s", "b", Bytes::from("defgh"), 25 * SECOND);
    let stats = cache.stats_at(70 * SECOND);
    assert_eq!(stats.entry_count, 2);
    assert_eq!(stats.total_size_bytes, 8);
    assert_eq!(stats.memory_limit_bytes, 1024 * 1024);
    assert_eq!(stats.oldest_entry_age_secs, 60);
    assert_eq!(cache.lookahead(), 2);
}

#[test]
fn the_cache_of_a_program_is_set_up_once() {
    let mut slot: Option<SegmentCache> = None;
    let stats = segment_cache_stats(slot.as_ref());
    assert_eq!(stats.entry_count, 0);
    assert_eq!(stats.memory_limit_bytes, 0);

    init_segment_cache(&mut slot, SegmentCacheConfig::default());
    let mut other = SegmentCacheConfig::default();
    other.max_memory_mb = 1;
    init_segment_cache(&mut slot, other);
    let stats = segment_cache_stats(slot.as_ref());
    assert_eq!(stats.memory_limit_bytes, 512 * 1024 * 1024);
    assert_eq!(SegmentCacheConfig::default().max_memory_bytes(), 536_870_912);
    assert_eq!(SegmentCache::default().len(), 0);
}
