use lead_lag::candle_cache::CandleCache;

fn series<T: Copy>(cache: &CandleCache<T>, symbol: &str) -> Option<Vec<T>> {
    cache.get(symbol).map(|values| values.iter().copied().collect())
}

#[test]
fn test_insert_and_get() {
    let mut cache = CandleCache::new(100);
    cache.insert("BTCUSDT", vec![1.0, 2.0, 3.0]);
    assert_eq!(cache.len("BTCUSDT"), 3);
    assert_eq!(cache.last_price("BTCUSDT"), Some(3.0));
}

#[test]
fn test_insert_trims_to_max_len() {
    let mut cache = CandleCache::new(5);
    cache.insert("BTCUSDT", vec![1.0, 2.0, 3.0, 4.0, 5.0, 6.0, 7.0]);
    // Should keep newest 5: [3, 4, 5, 6, 7]
    assert_eq!(cache.len("BTCUSDT"), 5);
    let prices = cache.get("BTCUSDT").unwrap();
    assert_eq!(*prices.front().unwrap(), 3.0);
    assert_eq!(*prices.back().unwrap(), 7.0);
}

#[test]
fn test_update_appends_and_trims() {
    let mut cache = CandleCache::new(3);
    cache.insert("BTCUSDT", vec![1.0, 2.0]);
    cache.update("BTCUSDT", 3.0);
    assert_eq!(cache.len("BTCUSDT"), 3);
    cache.update("BTCUSDT", 4.0);
    // Should be [2, 3, 4] now
    assert_eq!(cache.len("BTCUSDT"), 3);
    let prices = cache.get("BTCUSDT").unwrap();
    assert_eq!(*prices.front().unwrap(), 2.0);
    assert_eq!(*prices.back().unwrap(), 4.0);
}

#[test]
fn test_update_new_symbol() {
    let mut cache = CandleCache::new(10);
    cache.update("ETHUSDT", 100.0);
    assert_eq!(cache.len("ETHUSDT"), 1);
    assert_eq!(cache.last_price("ETHUSDT"), Some(100.0));
}

#[test]
fn test_symbols() {
    let mut cache = CandleCache::new(100);
    cache.insert("BTCUSDT", vec![1.0]);
    cache.insert("ETHUSDT", vec![2.0]);
    let mut syms = cache.symbols();
    syms.sort();
    assert_eq!(syms, vec!["BTCUSDT", "ETHUSDT"]);
}

#[test]
fn test_clear() {
    let mut cache = CandleCache::new(100);
    cache.insert("BTCUSDT", vec![1.0]);
    cache.clear();
    assert!(cache.symbols().is_empty());
}

#[test]
fn test_to_hashmap() {
    let mut cache = CandleCache::new(100);
    cache.insert("BTCUSDT", vec![1.0, 2.0, 3.0]);
    let map = cache.to_hashmap();
    assert_eq!(*map.get("BTCUSDT").unwrap(), vec![1.0, 2.0, 3.0]);
}

#[test]
fn test_missing_symbol() {
    let cache: CandleCache<f64> = CandleCache::new(100);
    assert_eq!(cache.get("NOTFOUND"), None);
    assert_eq!(cache.len("NOTFOUND"), 0);
    assert_eq!(cache.last_price("NOTFOUND"), None);
}

#[test]
fn ticks_replace_the_newest_candle() {
    let mut cache = CandleCache::new(3);
    cache.insert("BTCUSDT", vec![1.0, 2.0]);
    for i in 0..1000 {
        cache.update_last("BTCUSDT", i as f64);
    }
    assert_eq!(series(&cache, "BTCUSDT"), Some(vec![1.0, 999.0]));
    cache.update_last("ETHUSDT", 5.0);
    assert_eq!(series(&cache, "ETHUSDT"), Some(vec![5.0]));
    assert_eq!(cache.symbols(), vec!["BTCUSDT", "ETHUSDT"]);
    assert_eq!(series(&cache, "NOTFOUND"), None);
}

#[test]
fn no_series_outgrows_the_limit() {
    let mut cache = CandleCache::new(4);
    for i in 0..50 {
        cache.update("A", i);
        cache.update_last("B", i);
        assert!(cache.len("A") <= 4);
        assert!(cache.len("B") <= 4);
    }
    assert_eq!(series(&cache, "A"), Some(vec![46, 47, 48, 49]));
    cache.insert("B", vec![1, 2, 3, 4, 5, 6]);
    assert_eq!(series(&cache, "B"), Some(vec![3, 4, 5, 6]));
}

#[test]
fn a_limit_of_zero_keeps_only_a_tick() {
    let mut cache = CandleCache::new(0);
    cache.update("A", 1);
    assert_eq!(series(&cache, "A"), Some(vec![]));
    cache.update_last("A", 2);
    assert_eq!(series(&cache, "A"), Some(vec![2]));
}

#[test]
fn replacing_a_series_keeps_the_order_of_symbols() {
    let mut cache = CandleCache::new(10);
    cache.insert("B", vec![1]);
    cache.insert("A", vec![2]);
    cache.insert("B", vec![3]);
    assert_eq!(cache.symbols(), vec!["B", "A"]);
    let map = cache.to_hashmap();
    assert_eq!(map.symbols(), vec!["B", "A"]);
    assert_eq!(*map.value(0), vec![3]);
    assert_eq!(map.name(1), "A");
    assert_eq!(map.len(), 2);
    assert!(map.contains_key("A"));
    assert!(!map.contains_key("C"));
}
