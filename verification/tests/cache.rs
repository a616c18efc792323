use cdn_sync::cache::{HashCache, StoredCache, CACHE_VERSION};

fn pair(name: &str, hash: &str) -> (String, String) {
    (name.to_string(), hash.to_string())
}

fn sorted(mut pairs: Vec<(String, String)>) -> Vec<(String, String)> {
    pairs.sort();
    pairs
}

#[test]
fn new_cache_is_empty() {
    let cache = HashCache::new();
    assert_eq!(cache.get("a"), None);
    assert!(cache.snapshot().hashes.is_empty());
}

#[test]
fn insert_then_get() {
    let mut cache = HashCache::new();
    cache.insert("a.exe".to_string(), "11".to_string());
    cache.insert("b.dll".to_string(), "22".to_string());
    assert_eq!(cache.get("a.exe"), Some(&"11".to_string()));
    assert_eq!(cache.get("b.dll"), Some(&"22".to_string()));
    assert_eq!(cache.get("A.EXE"), None);
    assert_eq!(cache.get(""), None);
}

#[test]
fn insert_replaces_the_earlier_hash() {
    let mut cache = HashCache::new();
    cache.insert("a".to_string(), "11".to_string());
    cache.insert("b".to_string(), "22".to_string());
    cache.insert("a".to_string(), "33".to_string());
    assert_eq!(cache.get("a"), Some(&"33".to_string()));
    assert_eq!(cache.get("b"), Some(&"22".to_string()));
    assert_eq!(sorted(cache.snapshot().hashes), vec![pair("a", "33"), pair("b", "22")]);
}

#[test]
fn save_then_load_gives_the_same_cache() {
    let mut cache = HashCache::new();
    cache.insert("a.exe".to_string(), "11".to_string());
    cache.insert("zone/b.ff".to_string(), "22".to_string());
    cache.insert("a.exe".to_string(), "33".to_string());
    let saved = cache.snapshot();
    assert_eq!(saved.version, CACHE_VERSION);
    let loaded = HashCache::restore(Some(saved));
    assert_eq!(loaded.get("a.exe"), Some(&"33".to_string()));
    assert_eq!(loaded.get("zone/b.ff"), Some(&"22".to_string()));
    assert_eq!(loaded.get("c"), None);
    assert_eq!(sorted(loaded.snapshot().hashes), sorted(cache.snapshot().hashes));
    assert_eq!(loaded.snapshot().hashes.len(), 2);
}

#[test]
fn missing_cache_file_loads_empty() {
    let cache = HashCache::restore(None);
    assert!(cache.snapshot().hashes.is_empty());
}

#[test]
fn other_schema_version_loads_empty() {
    for version in [0, CACHE_VERSION + 1, u32::MAX] {
        let stored = StoredCache { version, hashes: vec![pair("a", "11")] };
        let cache = HashCache::restore(Some(stored));
        assert_eq!(cache.get("a"), None);
        assert!(cache.snapshot().hashes.is_empty());
    }
}

#[test]
fn repeated_path_in_file_keeps_the_later_hash() {
    let stored = StoredCache {
        version: CACHE_VERSION,
        hashes: vec![pair("a", "11"), pair("b", "22"), pair("a", "33")],
    };
    let cache = HashCache::restore(Some(stored));
    assert_eq!(cache.get("a"), Some(&"33".to_string()));
    assert_eq!(cache.snapshot().hashes.len(), 2);
}

#[test]
fn force_starts_with_an_empty_cache() {
    let stored = || Some(StoredCache { version: CACHE_VERSION, hashes: vec![pair("a", "11")] });
    assert_eq!(HashCache::starting(true, stored()).get("a"), None);
    assert_eq!(HashCache::starting(false, stored()).get("a"), Some(&"11".to_string()));
    assert_eq!(HashCache::starting(false, None).get("a"), None);
}
