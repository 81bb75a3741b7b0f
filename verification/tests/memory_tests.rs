use liangmu_history::memory::{
    clear_memory_cache, get_session_from_memory, set_session_to_memory, CachedSessionDetail,
    MemoryCache, MEMORY_CACHE_CAPACITY,
};

fn detail(n: usize) -> CachedSessionDetail {
    CachedSessionDetail { messages_json: format!("[{}]", n), tool_stats_json: format!("{{\"n\":{}}}", n) }
}

#[test]
fn memory_cache_returns_what_was_stored() {
    let mut cache = MemoryCache::new();
    set_session_to_memory(&mut cache, "blocks:/a.jsonl".to_string(), detail(1));
    assert_eq!(get_session_from_memory(&mut cache, "blocks:/a.jsonl"), Some(detail(1)));
    assert_eq!(get_session_from_memory(&mut cache, "blocks:/b.jsonl"), None);
}

#[test]
fn memory_cache_replaces_the_value_of_a_key() {
    let mut cache = MemoryCache::new();
    set_session_to_memory(&mut cache, "k".to_string(), detail(1));
    set_session_to_memory(&mut cache, "k".to_string(), detail(2));
    assert_eq!(get_session_from_memory(&mut cache, "k"), Some(detail(2)));
}

#[test]
fn memory_cache_evicts_the_least_recently_used_entry() {
    let mut cache = MemoryCache::new();
    for n in 0..MEMORY_CACHE_CAPACITY {
        set_session_to_memory(&mut cache, format!("k{}", n), detail(n));
    }
    // k0 is looked up, so k1 is now the least recently used entry.
    assert_eq!(get_session_from_memory(&mut cache, "k0"), Some(detail(0)));
    set_session_to_memory(&mut cache, "new".to_string(), detail(1000));
    assert_eq!(get_session_from_memory(&mut cache, "k1"), None);
    assert_eq!(get_session_from_memory(&mut cache, "k0"), Some(detail(0)));
    assert_eq!(get_session_from_memory(&mut cache, "k2"), Some(detail(2)));
    assert_eq!(get_session_from_memory(&mut cache, "new"), Some(detail(1000)));
}

#[test]
fn memory_cache_is_empty_after_clear() {
    let mut cache = MemoryCache::new();
    set_session_to_memory(&mut cache, "k".to_string(), detail(1));
    clear_memory_cache(&mut cache);
    assert_eq!(get_session_from_memory(&mut cache, "k"), None);
}
