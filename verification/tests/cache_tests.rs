use semfs::cache::ParsedQueryCache;
use semfs::cache::ParsedQueryCacheEntry;
use semfs::cache::QueryCache;

#[derive(Clone, Debug, PartialEq)]
struct SearchResult {
    file_id: i64,
    path: String,
    name: String,
    score: f32,
    matched_chunks: Vec<i64>,
}

fn result(file_id: i64, path: &str, name: &str) -> Vec<SearchResult> {
    vec![SearchResult {
        file_id,
        path: path.to_string(),
        name: name.to_string(),
        score: 1.0,
        matched_chunks: vec![],
    }]
}

#[test]
fn test_query_cache_lru() {
    let mut cache: QueryCache<Vec<SearchResult>> = QueryCache::new(2);
    let r1 = result(1, "/a", "a");
    let r2 = result(2, "/b", "b");
    let r3 = result(3, "/c", "c");

    cache.put(1, r1, vec![1]);
    cache.put(2, r2, vec![2]);
    cache.get(1);
    cache.put(3, r3, vec![3]);

    assert!(cache.get(1).is_some());
    assert!(cache.get(2).is_none());
    assert!(cache.get(3).is_some());
}

#[test]
fn test_query_cache_invalidation() {
    let mut cache: QueryCache<Vec<SearchResult>> = QueryCache::new(10);
    let results = result(1, "/a", "a");
    cache.put(100, results, vec![1, 2]);
    cache.invalidate_file(1);
    assert!(cache.get(100).is_none());
}

#[test]
fn test_parsed_query_cache_ttl() {
    let mut cache = ParsedQueryCache::new(0, 10);
    cache.put(
        "test".into(),
        ParsedQueryCacheEntry { semantic_query: "test".into(), filters_json: "[]".into() },
    );
    assert!(cache.get("test").is_none());
}

#[test]
fn lru_eviction_follows_explicit_access_times() {
    let mut cache: QueryCache<u32> = QueryCache::new(2);
    cache.put_at(1, 10, vec![], 100);
    cache.put_at(2, 20, vec![], 200);
    assert_eq!(cache.get_at(1, 300), Some(10));
    cache.put_at(3, 30, vec![], 400);
    assert_eq!(cache.len(), 2);
    assert_eq!(cache.get_at(2, 500), None);
    assert_eq!(cache.get_at(1, 600), Some(10));
    assert_eq!(cache.get_at(3, 700), Some(30));
    assert_eq!(cache.hit_rate_info(), (2, 2));
}

#[test]
fn putting_an_existing_key_replaces_its_result() {
    let mut cache: QueryCache<u32> = QueryCache::new(5);
    cache.put_at(7, 1, vec![1], 10);
    cache.put_at(7, 2, vec![2], 20);
    assert_eq!(cache.len(), 1);
    assert_eq!(cache.get_at(7, 30), Some(2));
    cache.invalidate_file(1);
    assert_eq!(cache.len(), 1);
    cache.invalidate_file(2);
    assert_eq!(cache.len(), 0);
}

#[test]
fn zero_capacity_cache_keeps_the_last_result() {
    let mut cache: QueryCache<u32> = QueryCache::new(0);
    cache.put_at(1, 1, vec![], 1);
    cache.put_at(2, 2, vec![], 2);
    assert_eq!(cache.len(), 1);
    assert_eq!(cache.get_at(2, 3), Some(2));
    cache.clear();
    assert_eq!(cache.len(), 0);
}

#[test]
fn parsed_queries_expire_after_their_time_to_live() {
    let mut cache = ParsedQueryCache::new(1, 10);
    let entry = ParsedQueryCacheEntry { semantic_query: "react".into(), filters_json: "[]".into() };
    cache.put_at("React 프로젝트".to_string(), entry, 1_000);
    let hit = cache.get_at("React 프로젝트", 1_000 + 999_999_999).unwrap();
    assert_eq!(hit.semantic_query, "react");
    assert!(cache.get_at("React 프로젝트", 1_000 + 1_000_000_000).is_none());
    assert!(cache.get_at("other", 1_000).is_none());
}

#[test]
fn parsed_query_cache_evicts_the_oldest_at_capacity() {
    let mut cache = ParsedQueryCache::new(100, 2);
    let e = |s: &str| ParsedQueryCacheEntry { semantic_query: s.into(), filters_json: "[]".into() };
    cache.put_at("a".into(), e("a"), 10);
    cache.put_at("b".into(), e("b"), 20);
    cache.put_at("c".into(), e("c"), 30);
    assert_eq!(cache.len(), 2);
    assert!(cache.get_at("a", 40).is_none());
    assert!(cache.get_at("b", 40).is_some());
    assert!(cache.get_at("c", 40).is_some());
    cache.clear();
    assert_eq!(cache.len(), 0);
}

#[test]
fn replacing_a_key_in_a_full_cache_evicts_nothing() {
    let mut cache: QueryCache<u32> = QueryCache::new(2);
    cache.put_at(1, 10, vec![1], 1);
    cache.put_at(2, 20, vec![2], 2);
    cache.put_at(2, 21, vec![2], 3);
    assert_eq!(cache.len(), 2);
    assert_eq!(cache.get_at(1, 4), Some(10));
    assert_eq!(cache.get_at(2, 5), Some(21));
}
