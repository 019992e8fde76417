use whoiser::cache::entry::{CacheEntry, Outcome};
use whoiser::cache::table::{CacheTable, Lookup};

fn key(s: &str) -> String {
    s.to_string()
}

fn fill(t: &mut CacheTable, k: &str, now: u64, text: &str) -> CacheEntry {
    assert!(matches!(t.begin(&key(k), now), Lookup::Compute));
    let e = CacheEntry::ok(text.to_string(), t.expiry(now));
    t.complete(key(k), e.clone());
    e
}

fn hit_value(l: Lookup) -> Option<String> {
    match l {
        Lookup::Hit(e) => Some(e.value),
        _ => None,
    }
}

#[test]
fn lru_scenario_two_slots() {
    let mut t = CacheTable::new(2, 60);
    fill(&mut t, "A", 0, "a");
    fill(&mut t, "B", 10, "b");
    assert_eq!(t.len(), 2);
    assert_eq!(hit_value(t.begin(&key("A"), 20)), Some("a".to_string()));
    fill(&mut t, "C", 30, "c");
    assert_eq!(t.len(), 2);
    assert!(matches!(t.begin(&key("B"), 40), Lookup::Compute));
    assert_eq!(hit_value(t.begin(&key("A"), 41)), Some("a".to_string()));
    assert_eq!(hit_value(t.begin(&key("C"), 42)), Some("c".to_string()));
}

#[test]
fn one_computation_per_miss() {
    let mut t = CacheTable::new(10, 60);
    assert!(matches!(t.begin(&key("k"), 5), Lookup::Compute));
    for now in 5..12u64 {
        assert!(matches!(t.begin(&key("k"), now), Lookup::Wait));
    }
    let e = CacheEntry::ok("answer".to_string(), t.expiry(5));
    t.complete(key("k"), e);
    for now in 12..20u64 {
        match t.begin(&key("k"), now) {
            Lookup::Hit(got) => {
                assert_eq!(got.value, "answer");
                assert_eq!(got.expires, 65);
                assert_eq!(got.status, Outcome::Success);
            }
            other => panic!("expected a hit, got {:?}", other),
        }
    }
}

#[test]
fn entry_expires_after_ttl() {
    let mut t = CacheTable::new(4, 30);
    fill(&mut t, "k", 100, "v");
    assert_eq!(hit_value(t.begin(&key("k"), 100)), Some("v".to_string()));
    assert_eq!(hit_value(t.begin(&key("k"), 129)), Some("v".to_string()));
    assert!(matches!(t.begin(&key("k"), 130), Lookup::Compute));
    assert_eq!(t.len(), 0);
}

#[test]
fn full_table_evicts_least_recent() {
    let mut t = CacheTable::new(3, 1000);
    fill(&mut t, "a", 0, "1");
    fill(&mut t, "b", 1, "2");
    fill(&mut t, "c", 2, "3");
    fill(&mut t, "d", 3, "4");
    assert_eq!(t.len(), 3);
    assert_eq!(hit_value(t.begin(&key("b"), 4)), Some("2".to_string()));
    assert_eq!(hit_value(t.begin(&key("c"), 4)), Some("3".to_string()));
    assert_eq!(hit_value(t.begin(&key("d"), 4)), Some("4".to_string()));
    assert!(matches!(t.begin(&key("a"), 4), Lookup::Compute));
}

#[test]
fn refreshing_a_key_does_not_evict() {
    let mut t = CacheTable::new(2, 10);
    fill(&mut t, "a", 0, "1");
    fill(&mut t, "b", 0, "2");
    fill(&mut t, "a", 10, "3");
    assert_eq!(t.len(), 2);
    assert_eq!(hit_value(t.begin(&key("b"), 9)), Some("2".to_string()));
    assert_eq!(hit_value(t.begin(&key("a"), 19)), Some("3".to_string()));
}

#[test]
fn failure_is_served_until_expiry() {
    let mut t = CacheTable::new(2, 60);
    assert!(matches!(t.begin(&key("bad"), 0), Lookup::Compute));
    t.complete(key("bad"), CacheEntry::bad_request("nope".to_string(), t.expiry(0)));
    match t.begin(&key("bad"), 59) {
        Lookup::Hit(e) => {
            assert_eq!(e.value, "nope");
            assert_eq!(e.status, Outcome::Failure);
            assert_eq!(e.status_code(), 400);
        }
        other => panic!("expected a hit, got {:?}", other),
    }
    assert!(matches!(t.begin(&key("bad"), 60), Lookup::Compute));
}

#[test]
fn other_key_served_while_one_computes() {
    let mut t = CacheTable::new(4, 60);
    fill(&mut t, "k2", 0, "two");
    assert!(matches!(t.begin(&key("k1"), 1), Lookup::Compute));
    assert_eq!(hit_value(t.begin(&key("k2"), 2)), Some("two".to_string()));
    assert!(matches!(t.begin(&key("k1"), 3), Lookup::Wait));
}

#[test]
fn zero_capacity_keeps_nothing() {
    let mut t = CacheTable::new(0, 60);
    fill(&mut t, "k", 0, "v");
    assert_eq!(t.len(), 0);
    assert!(matches!(t.begin(&key("k"), 1), Lookup::Compute));
}

#[test]
fn table_settings_and_expiry() {
    let t = CacheTable::new(7, 86400);
    assert_eq!(t.capacity(), 7);
    assert_eq!(t.ttl(), 86400);
    assert_eq!(t.expiry(1_000), 87_400);
}
