use continuum::cache::{
    detect_cache_budget, eviction_order, parse_mem_available, LoadedPageData, MemoryManager,
    PageKey, MAX_CACHE_BYTES, MIN_CACHE_BYTES,
};

fn key(chapter_idx: usize, page_idx: usize) -> PageKey {
    PageKey { chapter_idx, page_idx }
}

const MIB: usize = 1024 * 1024;

fn page(byte_size: usize) -> LoadedPageData<()> {
    LoadedPageData { texture: (), width: 10, height: 10, byte_size }
}

fn globals(n: usize) -> Vec<PageKey> {
    (0..n).map(|p| key(0, p)).collect()
}

#[test]
fn test_memory_manager_initial_state() {
    let mgr: MemoryManager<()> = MemoryManager::new(detect_cache_budget(None));
    assert_eq!(mgr.total_bytes(), 0);
    assert!(mgr.is_empty());
}

#[test]
fn test_memory_manager_clear() {
    let mut mgr: MemoryManager<()> = MemoryManager::new(detect_cache_budget(None));
    let evicted = mgr.insert(key(0, 0), page(500), 0, &globals(1));
    assert!(evicted.is_empty());
    assert_eq!(mgr.total_bytes(), 500);
    mgr.clear();
    assert_eq!(mgr.total_bytes(), 0);
    assert!(mgr.is_empty());
}

#[test]
fn test_eviction_under_limit_does_nothing() {
    let mut mgr: MemoryManager<()> = MemoryManager::new(detect_cache_budget(None));
    let inserted = mgr.insert(key(0, 0), page(100 * 1024 * 1024), 0, &globals(1));
    assert!(inserted.is_empty());
    let evicted = mgr.evict_if_needed(0, &[]);
    assert!(evicted.is_empty());
}

#[test]
fn test_cache_budget_stays_within_bounds() {
    for available in [
        None,
        Some(0),
        Some(1024),
        Some(7_500 * 1024 * 1024),
        Some(usize::MAX),
    ] {
        let budget = detect_cache_budget(available);
        assert!(
            (MIN_CACHE_BYTES..=MAX_CACHE_BYTES).contains(&budget),
            "budget {budget} outside [{MIN_CACHE_BYTES}, {MAX_CACHE_BYTES}]"
        );
    }
}

#[test]
fn cache_budget_is_an_eighth_of_available_ram_between_the_limits() {
    assert_eq!(detect_cache_budget(None), MAX_CACHE_BYTES);
    assert_eq!(detect_cache_budget(Some(0)), MIN_CACHE_BYTES);
    assert_eq!(detect_cache_budget(Some(8 * 300 * 1024 * 1024)), 300 * 1024 * 1024);
    assert_eq!(detect_cache_budget(Some(8 * 1024 * 1024 * 1024)), MAX_CACHE_BYTES);
}

#[test]
fn test_eviction_order_drops_furthest_pages_first() {
    let globals: Vec<PageKey> = (0..10).map(|page_idx| key(0, page_idx)).collect();
    let loaded: Vec<PageKey> = [1usize, 3, 5, 8].iter().map(|&page_idx| key(0, page_idx)).collect();

    let order: Vec<usize> = eviction_order(&loaded, &globals, 4)
        .iter()
        .map(|key| key.page_idx)
        .collect();

    // 8 is furthest from page 4, then 1; 3 and 5 tie and keep their order.
    assert_eq!(order, vec![8, 1, 3, 5]);
}

#[test]
fn test_eviction_order_handles_pages_missing_from_global_list() {
    let globals = vec![key(0, 0)];
    let orphan = key(7, 7);
    let order = eviction_order(&[orphan], &globals, 3);
    assert_eq!(order, vec![orphan]);
}

#[test]
fn eviction_order_uses_the_last_position_of_a_repeated_page() {
    let globals = vec![key(0, 0), key(0, 1), key(0, 0)];
    let loaded = vec![key(0, 1), key(0, 0)];
    // Page (0, 0) counts as being at position 2.
    let order = eviction_order(&loaded, &globals, 2);
    assert_eq!(order, vec![key(0, 1), key(0, 0)]);
    let order = eviction_order(&loaded, &globals, 0);
    assert_eq!(order, vec![key(0, 0), key(0, 1)]);
}

#[test]
fn eviction_drops_the_farthest_pages_until_the_budget_holds() {
    let g = globals(10);
    let mut mgr: MemoryManager<()> = MemoryManager::new(300 * MIB);
    assert!(mgr.insert(key(0, 0), page(100 * MIB), 0, &g).is_empty());
    assert!(mgr.insert(key(0, 9), page(100 * MIB), 0, &g).is_empty());
    assert!(mgr.insert(key(0, 5), page(100 * MIB), 0, &g).is_empty());
    assert_eq!(mgr.total_bytes(), 300 * MIB);
    // A fourth page goes over the budget: the page farthest from page 4 goes.
    let evicted = mgr.insert(key(0, 4), page(100 * MIB), 4, &g);
    assert_eq!(evicted, vec![key(0, 9)]);
    assert_eq!(mgr.total_bytes(), 300 * MIB);
    assert!(mgr.contains(&key(0, 4)));
    assert!(!mgr.contains(&key(0, 9)));
    assert_eq!(mgr.len(), 3);
    assert!(mgr.total_bytes() <= MAX_CACHE_BYTES);
}

#[test]
fn an_inserted_page_reads_back_unless_evicted() {
    let g = globals(4);
    let mut mgr: MemoryManager<&str> = MemoryManager::new(MIN_CACHE_BYTES);
    let evicted = mgr.insert(
        key(0, 2),
        LoadedPageData { texture: "two", width: 3, height: 4, byte_size: 48 },
        0,
        &g,
    );
    assert!(evicted.is_empty());
    let e = mgr.get(&key(0, 2)).expect("page is resident");
    assert_eq!(e.texture, "two");
    assert_eq!((e.width, e.height, e.byte_size), (3, 4, 48));
    // Replacing a page keeps one copy and its new size.
    let evicted = mgr.insert(
        key(0, 2),
        LoadedPageData { texture: "again", width: 1, height: 1, byte_size: 10 },
        0,
        &g,
    );
    assert!(evicted.is_empty());
    assert_eq!(mgr.len(), 1);
    assert_eq!(mgr.total_bytes(), 10);
    assert_eq!(mgr.get(&key(0, 2)).map(|e| e.texture), Some("again"));
}

#[test]
fn an_oversized_page_far_from_the_screen_goes_at_once() {
    let g = globals(3);
    let mut mgr: MemoryManager<()> = MemoryManager::new(200 * MIB);
    assert!(mgr.insert(key(0, 0), page(50 * MIB), 0, &g).is_empty());
    let evicted = mgr.insert(key(0, 1), page(500 * MIB), 0, &g);
    assert_eq!(evicted, vec![key(0, 1)]);
    assert_eq!(mgr.len(), 1);
    assert_eq!(mgr.total_bytes(), 50 * MIB);
}

#[test]
fn an_oversized_page_on_screen_empties_the_cache() {
    let g = globals(3);
    let mut mgr: MemoryManager<()> = MemoryManager::new(200 * MIB);
    assert!(mgr.insert(key(0, 0), page(50 * MIB), 1, &g).is_empty());
    let evicted = mgr.insert(key(0, 1), page(500 * MIB), 1, &g);
    assert_eq!(evicted, vec![key(0, 0), key(0, 1)]);
    assert!(mgr.is_empty());
    assert_eq!(mgr.total_bytes(), 0);
}

#[test]
fn mem_available_is_read_from_meminfo_in_bytes() {
    let meminfo = "MemTotal:       16000000 kB\nMemFree:         1000000 kB\nMemAvailable:    7500000 kB\n";
    assert_eq!(parse_mem_available(meminfo), Some(7_500_000 * 1024));
    assert_eq!(parse_mem_available("MemTotal: 1 kB\n"), None);
    assert_eq!(parse_mem_available("MemAvailable: lots kB\n"), None);
    assert_eq!(parse_mem_available("MemAvailable:\n"), None);
}
