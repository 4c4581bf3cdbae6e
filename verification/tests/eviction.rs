use foundry::eviction::{
    eviction_allowed, eviction_step, lru_order, ChunkCacheConfig, EvictionCounts, EvictionStep,
};

#[test]
fn least_recently_used_first_and_ties_keep_their_order() {
    assert_eq!(lru_order(&[5, 1, 9, 1, 0]), vec![4, 1, 3, 0, 2]);
    assert_eq!(lru_order(&[]), Vec::<usize>::new());
    assert_eq!(lru_order(&[3, 3, 3]), vec![0, 1, 2]);
    assert_eq!(lru_order(&[u64::MAX, 0]), vec![1, 0]);
}

#[test]
fn eviction_runs_only_over_the_limit() {
    let cache = ChunkCacheConfig::default();
    assert_eq!(cache.max_loaded_chunks, 512);
    assert_eq!(cache.keep_radius_chunks, 6);
    assert_eq!(cache.evict_per_frame, 8);
    assert!(eviction_allowed(0, 513, 512, true));
    assert!(!eviction_allowed(0, 512, 512, true));
    assert!(!eviction_allowed(513, 600, 512, true));
    assert!(eviction_allowed(512, 600, 512, true));
    assert!(!eviction_allowed(0, 600, 512, false));
}

#[test]
fn each_candidate_gets_one_decision() {
    assert_eq!(eviction_step(600, 512, 0, 8, true, false, false), EvictionStep::Evict);
    assert_eq!(eviction_step(512, 512, 0, 8, true, false, false), EvictionStep::Stop);
    assert_eq!(eviction_step(600, 512, 8, 8, true, false, false), EvictionStep::Stop);
    assert_eq!(eviction_step(600, 512, 0, 8, false, true, false), EvictionStep::Skip);
    assert_eq!(eviction_step(600, 512, 0, 8, false, true, true), EvictionStep::Skip);
    assert_eq!(eviction_step(600, 512, 0, 8, true, true, false), EvictionStep::SaveThenEvict);
    assert_eq!(eviction_step(600, 512, 0, 8, true, true, true), EvictionStep::Evict);
}

#[test]
fn eviction_rate_per_window() {
    let mut counts = EvictionCounts { evicted_this_window: 0, evicted_per_second: 0 };
    counts.record(3, false);
    counts.record(2, false);
    assert_eq!(counts.evicted_this_window, 5);
    assert_eq!(counts.evicted_per_second, 0);
    counts.record(1, true);
    assert_eq!(counts.evicted_per_second, 6);
    assert_eq!(counts.evicted_this_window, 0);
}
