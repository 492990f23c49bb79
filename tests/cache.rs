use gh_proxy::cache::AppCache;

#[test]
fn set_then_get_returns_the_same_bytes() {
    let mut c = AppCache::with_memory_limit(true, 10, 100, 60);
    assert!(c.set_at("k".to_string(), vec![1, 2, 3], 1000));
    assert_eq!(c.get_at("k", 1000), Some(vec![1, 2, 3]));
    assert_eq!(c.get_at("k", 1059), Some(vec![1, 2, 3]));
    assert_eq!(c.get_memory_usage(), 3);
    assert_eq!(c.get_entry_count(), 1);
}

#[test]
fn expired_entries_miss_and_are_purged() {
    let mut c = AppCache::with_memory_limit(true, 10, 100, 60);
    assert!(c.set_at("k".to_string(), vec![1, 2, 3], 1000));
    assert_eq!(c.get_at("k", 1060), None);
    assert_eq!(c.get_entry_count(), 0);
    assert_eq!(c.get_memory_usage(), 0);
}

#[test]
fn memory_budget_evicts_oldest_first() {
    let mut c = AppCache::with_memory_limit(true, 10, 10, 600);
    assert!(c.set_at("a".to_string(), vec![0; 4], 1));
    assert!(c.set_at("b".to_string(), vec![0; 4], 2));
    assert!(c.set_at("c".to_string(), vec![0; 4], 3));
    assert!(c.get_memory_usage() <= 10);
    assert_eq!(c.get_memory_usage(), 8);
    assert_eq!(c.get_at("a", 4), None);
    assert_eq!(c.get_at("b", 4), Some(vec![0; 4]));
    assert_eq!(c.get_at("c", 4), Some(vec![0; 4]));
}

#[test]
fn capacity_evicts_oldest_when_key_is_new() {
    let mut c = AppCache::with_memory_limit(true, 2, 100, 600);
    assert!(c.set_at("a".to_string(), vec![1], 1));
    assert!(c.set_at("b".to_string(), vec![2], 2));
    assert!(c.set_at("c".to_string(), vec![3], 3));
    assert_eq!(c.get_entry_count(), 2);
    assert_eq!(c.get_at("a", 4), None);
    assert!(c.set_at("c".to_string(), vec![4, 4], 5));
    assert_eq!(c.get_entry_count(), 2);
    assert_eq!(c.get_at("b", 6), Some(vec![2]));
    assert_eq!(c.get_at("c", 6), Some(vec![4, 4]));
    assert_eq!(c.get_memory_usage(), 3);
}

#[test]
fn oversized_data_is_refused() {
    let mut c = AppCache::with_memory_limit(true, 10, 4, 600);
    assert!(c.set_at("a".to_string(), vec![1, 2], 1));
    assert!(!c.set_at("b".to_string(), vec![0; 5], 1));
    assert_eq!(c.get_entry_count(), 1);
    assert_eq!(c.get_memory_usage(), 2);
    assert!(c.set_at("c".to_string(), vec![0; 4], 2));
    assert_eq!(c.get_entry_count(), 1);
    assert_eq!(c.get_memory_usage(), 4);
}

#[test]
fn disabled_cache_is_inert() {
    let mut c = AppCache::with_memory_limit(false, 10, 100, 600);
    assert!(!c.set_at("a".to_string(), vec![1], 1));
    assert_eq!(c.get_at("a", 1), None);
    assert_eq!(c.get_entry_count(), 0);
}

#[test]
fn remove_reports_whether_an_entry_existed() {
    let mut c = AppCache::new(true, 10, 600);
    assert_eq!(c.max_memory, 100 * 1024 * 1024);
    assert!(c.set_at("a".to_string(), vec![1, 2], 1));
    assert!(c.remove("a"));
    assert!(!c.remove("a"));
    assert_eq!(c.get_memory_usage(), 0);
}

#[test]
fn clock_based_calls_store_and_serve() {
    let mut c = AppCache::with_memory_limit(true, 10, 100, 3600);
    assert!(c.set("k".to_string(), vec![9]));
    assert_eq!(c.get("k"), Some(vec![9]));
}

#[test]
fn zero_capacity_stores_nothing() {
    let mut c = AppCache::with_memory_limit(true, 0, 100, 600);
    assert!(!c.set_at("a".to_string(), vec![1], 1));
    assert_eq!(c.get_entry_count(), 0);
    assert_eq!(c.get_memory_usage(), 0);
    assert_eq!(c.get_at("a", 1), None);
}
