use cache_lifespan::lru::{simulate, LruCache};
use cache_lifespan::recency::Object;
use cache_lifespan::sim_record::{Access, Command};
use cache_lifespan::sweep::get_ttls;

fn get(timestamp: u64, key: u64, size: u32) -> Access {
    Access { timestamp, command: Command::Get, key, size, ttl: None }
}

#[test]
fn read_through_filter() {
    assert!(get(0, 1, 10).is_valid_read_through());
    assert!(!get(0, 1, 0).is_valid_read_through());
    let put = Access { command: Command::Put, ..get(0, 1, 10) };
    assert!(!put.is_valid_read_through());
}

#[test]
fn object_from_access() {
    let o = Object::new(&get(7, 3, 9));
    assert_eq!(o, Object { first_access: 7, key: 3, size: 9 });
}

#[test]
fn eviction_waits_until_over_budget() {
    // The second object brings 120 bytes into a budget of 100; eviction
    // happens before the next miss is inserted.
    let trace = vec![get(0, 1, 60), get(10, 2, 60)];
    assert_eq!(simulate(&trace, 100), Vec::<u64>::new());
    let trace = vec![get(0, 1, 60), get(10, 2, 60), get(20, 3, 60)];
    assert_eq!(simulate(&trace, 100), vec![20]);
}

#[test]
fn hit_keeps_first_access_time() {
    let trace = vec![get(0, 0xA, 50), get(5, 0xA, 50), get(20, 0xB, 60), get(30, 0xC, 10)];
    // A was inserted at 0; the hit at 5 does not reset its clock.
    assert_eq!(simulate(&trace, 100), vec![30]);
}

#[test]
fn hit_moves_key_to_front() {
    // A, B in; hit on A; C and D then force evictions: B, the least recently
    // used, goes first.
    let trace = vec![
        get(0, 0xA, 40),
        get(1, 0xB, 40),
        get(2, 0xA, 40),
        get(3, 0xC, 40),
        get(4, 0xD, 40),
    ];
    assert_eq!(simulate(&trace, 100), vec![3]);
    let mut cache = LruCache::new(100);
    let mut spans = Vec::new();
    for a in &trace {
        cache.access(a, &mut spans);
    }
    assert_eq!(spans, vec![3]);
    assert_eq!(cache.current_size(), 120);
    assert_eq!(cache.latest(), 4);
    assert_eq!(cache.budget(), 100);
}

#[test]
fn oversized_object_skipped() {
    let mut cache = LruCache::new(50);
    let mut spans = Vec::new();
    cache.access(&get(3, 0x58, 100), &mut spans);
    assert_eq!(cache.current_size(), 0);
    assert!(spans.is_empty());
}

#[test]
fn filtered_accesses_never_enter() {
    let mut cache = LruCache::new(50);
    let mut spans = Vec::new();
    cache.access(&Access { command: Command::Put, ..get(0, 1, 10) }, &mut spans);
    cache.access(&get(1, 2, 0), &mut spans);
    cache.access(&get(2, 3, 51), &mut spans);
    assert_eq!(cache.current_size(), 0);
    cache.access(&get(3, 4, 50), &mut spans);
    assert_eq!(cache.current_size(), 50);
    assert!(spans.is_empty());
}

#[test]
fn many_evictions_in_one_miss() {
    let trace = vec![
        get(0, 1, 30),
        get(1, 2, 30),
        get(2, 3, 30),
        get(3, 4, 30),
        get(9, 5, 100),
        get(12, 6, 10),
    ];
    // At 9, 120 bytes are resident over a budget of 100: 1 is evicted. At 12,
    // 190 bytes are: 2, 3 and 4 go, least recently used first.
    assert_eq!(simulate(&trace, 100), vec![9, 11, 10, 9]);
}

#[test]
fn slots_are_reused_after_eviction() {
    let mut trace = Vec::new();
    for t in 0..1000u64 {
        trace.push(get(t, t % 7, 10));
    }
    let spans = simulate(&trace, 20);
    assert!(spans.iter().all(|&s| s <= 1000));
    assert!(!spans.is_empty());
}

#[test]
fn lifespans_are_not_negative() {
    let trace = vec![get(5, 1, 60), get(5, 2, 60), get(5, 3, 60), get(8, 4, 60)];
    let spans = simulate(&trace, 100);
    assert_eq!(spans, vec![0, 3]);
}

#[test]
fn ttl_extraction() {
    let trace = vec![
        Access { command: Command::Put, ttl: Some(30), ..get(0, 1, 10) },
        Access { command: Command::Put, ttl: Some(0), ..get(1, 2, 10) },
        Access { command: Command::Put, ttl: None, ..get(2, 3, 10) },
    ];
    assert_eq!(get_ttls(&trace), vec![30_000]);
}

#[test]
fn largest_budget_is_accepted() {
    let trace = vec![get(0, 1, u32::MAX), get(1, 2, u32::MAX), get(2, 1, 7)];
    assert_eq!(simulate(&trace, u64::MAX), Vec::<u64>::new());
    let mut cache = LruCache::new(u64::MAX);
    let mut spans = Vec::new();
    for a in &trace {
        cache.access(a, &mut spans);
    }
    assert_eq!(cache.current_size(), 2 * u32::MAX as u128);
}
