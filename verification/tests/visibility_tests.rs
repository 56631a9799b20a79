use wiwo::visibility::{LookupOutcome, VisibilityCache};

#[test]
fn miss_then_cached() {
    let mut cache = VisibilityCache::new();
    assert_eq!(cache.get("a/x"), None);
    let v = cache.record("a/x", &LookupOutcome::Found { private: true });
    assert!(v);
    // the identifier is now resolved: no further remote lookup is needed
    assert_eq!(cache.get("a/x"), Some(true));
}

#[test]
fn first_resolution_wins() {
    let mut cache = VisibilityCache::new();
    cache.record("a/x", &LookupOutcome::Found { private: true });
    let again = cache.record("a/x", &LookupOutcome::Found { private: false });
    assert!(again);
    assert_eq!(cache.get("a/x"), Some(true));
}

#[test]
fn not_found_resolves_to_public_and_is_cached() {
    let mut cache = VisibilityCache::new();
    let v = cache.record("a/gone", &LookupOutcome::NotFound);
    assert!(!v);
    assert_eq!(cache.get("a/gone"), Some(false));
}

#[test]
fn transport_error_resolves_to_public_and_is_cached() {
    let mut cache = VisibilityCache::new();
    let v = cache.record("a/x", &LookupOutcome::TransportError);
    assert!(!v);
    assert_eq!(cache.get("a/x"), Some(false));
}

#[test]
fn parse_failure_resolves_to_public() {
    let mut cache = VisibilityCache::new();
    let v = cache.record("a/x", &LookupOutcome::ParseFailure);
    assert!(!v);
    assert_eq!(cache.get("a/x"), Some(false));
}

#[test]
fn distinct_identifiers_are_independent() {
    let mut cache = VisibilityCache::new();
    cache.record("a/x", &LookupOutcome::Found { private: true });
    cache.record("a/y", &LookupOutcome::Found { private: false });
    assert_eq!(cache.get("a/x"), Some(true));
    assert_eq!(cache.get("a/y"), Some(false));
    assert_eq!(cache.get("a/z"), None);
}
