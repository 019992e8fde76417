use whoiser::cache::entry::{CacheEntry, Outcome};
use whoiser::lookup::{finish_lookup, lookup_failure, options_failure, prepare_lookup};

#[test]
fn entry_constructors() {
    let ok = CacheEntry::ok("text".to_string(), 42);
    assert_eq!(ok.value, "text");
    assert_eq!(ok.expires, 42);
    assert_eq!(ok.status, Outcome::Success);
    assert_eq!(ok.status_code(), 200);
    let bad = CacheEntry::bad_request("why".to_string(), 7);
    assert_eq!(bad.value, "why");
    assert_eq!(bad.expires, 7);
    assert_eq!(bad.status, Outcome::Failure);
    assert_eq!(bad.status_code(), 400);
}

#[test]
fn entry_freshness_and_age() {
    let e = CacheEntry::ok("x".to_string(), 100);
    assert!(e.is_fresh(99));
    assert!(!e.is_fresh(100));
    assert_eq!(e.max_age(40), 60);
    assert_eq!(e.max_age(100), 0);
    assert_eq!(e.max_age(150), 0);
    let d = e.duplicate();
    assert_eq!(d.value, "x");
    assert_eq!(d.expires, 100);
}

#[test]
fn failure_messages() {
    let e = options_failure("bad host", 9);
    assert_eq!(e.value, "Lookup options failed. Reason: bad host");
    assert_eq!(e.expires, 9);
    assert_eq!(e.status, Outcome::Failure);
    let e = lookup_failure("timed out", 3);
    assert_eq!(e.value, "WHOIS lookup failed. Reason: timed out");
    assert_eq!(e.status, Outcome::Failure);
}

#[test]
fn address_key_is_accepted() {
    assert!(prepare_lookup("8.8.8.8".to_string(), 10).is_ok());
    assert!(prepare_lookup("example.com".to_string(), 10).is_ok());
}

#[test]
fn malformed_key_becomes_failure_entry() {
    match prepare_lookup("not a host at all".to_string(), 10) {
        Ok(_) => panic!("a text with spaces is no host"),
        Err(e) => {
            assert_eq!(e.status, Outcome::Failure);
            assert_eq!(e.expires, 10);
            assert!(e.value.starts_with("Lookup options failed. Reason: "));
            assert!(e.value.len() > "Lookup options failed. Reason: ".len());
        }
    }
}

#[test]
fn finished_lookup_entries() {
    let e = finish_lookup(Ok("record".to_string()), 5);
    assert_eq!(e.value, "record");
    assert_eq!(e.status, Outcome::Success);
    assert_eq!(e.expires, 5);
    let err = whois_rust::WhoIsLookupOptions::from_string("1.2.3.4:99").err().unwrap();
    let e = finish_lookup(Err(err), 6);
    assert_eq!(e.status, Outcome::Failure);
    assert_eq!(e.expires, 6);
    assert!(e.value.starts_with("WHOIS lookup failed. Reason: "));
}
