use std::collections::HashSet;

use borehole::port_pool::PortManager;

#[test]
fn acquire_returns_port_in_range() {
    let mut pm = PortManager::new(30000, 30010);
    let port = pm.acquire().expect("pool should not be empty");
    assert!((30000..=30010).contains(&port), "got out-of-range port: {port}");
}

#[test]
fn acquire_specific_out_of_range_fails() {
    let mut pm = PortManager::new(30000, 30010);
    assert_eq!(pm.acquire_specific(29999), None);
    assert_eq!(pm.acquire_specific(30011), None);
}

#[test]
fn acquire_specific_already_taken_fails() {
    let mut pm = PortManager::new(30000, 30010);
    assert_eq!(pm.acquire_specific(30005), Some(30005));
    assert_eq!(pm.acquire_specific(30005), None);
}

#[test]
fn release_returns_port_to_pool() {
    let mut pm = PortManager::new(30000, 30000);
    assert_eq!(pm.acquire(), Some(30000));
    assert_eq!(pm.acquire(), None, "pool must be exhausted");

    pm.release(30000);
    assert_eq!(pm.acquire(), Some(30000), "released port must be reusable");
}

#[test]
fn acquire_exhausts_pool() {
    let mut pm = PortManager::new(30000, 30002);
    let mut seen = HashSet::new();
    for _ in 0..3 {
        seen.insert(pm.acquire().expect("port should be available"));
    }
    assert_eq!(seen.len(), 3, "all three distinct ports must be handed out");
    assert_eq!(pm.acquire(), None, "pool must be exhausted");
    assert_eq!(pm.available_count(), 0);
}

#[test]
fn new_pool_counts_the_whole_range() {
    assert_eq!(PortManager::new(30000, 40000).available_count(), 10001);
    assert_eq!(PortManager::new(5, 5).available_count(), 1);
    assert_eq!(PortManager::new(10, 9).available_count(), 0);
    assert_eq!(PortManager::new(65530, 65535).available_count(), 6);
}

#[test]
fn release_outside_range_is_ignored() {
    let mut pm = PortManager::new(100, 101);
    pm.release(99);
    pm.release(102);
    assert_eq!(pm.available_count(), 2);
    assert!(pm.in_range(100));
    assert!(!pm.in_range(102));
}

#[test]
fn taken_port_then_released_is_free_again() {
    let mut pm = PortManager::new(200, 203);
    assert_eq!(pm.acquire_specific(201), Some(201));
    assert_eq!(pm.available_count(), 3);
    for _ in 0..3 {
        assert_ne!(pm.acquire(), Some(201));
    }
    pm.release(201);
    assert_eq!(pm.acquire(), Some(201));
}
