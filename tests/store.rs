use cache_service::{
    expires_at, parse_ttl, resolve_ttl_text, ttl_or_default, ExpiringStore, DEFAULT_TTL_SECS,
    NANOS_PER_SEC,
};

fn key(s: &str) -> String {
    s.to_string()
}

fn bytes(s: &str) -> Vec<u8> {
    s.as_bytes().to_vec()
}

#[test]
fn write_then_read() {
    let mut store = ExpiringStore::new();
    store.put(key("a"), bytes("v1"), Some(10), 1_000);
    assert_eq!(store.get(&key("a"), 1_000), Some(bytes("v1")));
}

#[test]
fn read_just_before_expiry_and_at_expiry() {
    let mut store = ExpiringStore::new();
    store.put(key("a"), bytes("v1"), Some(10), 0);
    assert_eq!(store.get(&key("a"), 10 * NANOS_PER_SEC - 1), Some(bytes("v1")));
    assert_eq!(store.get(&key("a"), 10 * NANOS_PER_SEC), None);
}

#[test]
fn zero_ttl_expires() {
    let mut store = ExpiringStore::new();
    store.put(key("a"), bytes("v1"), Some(0), 500);
    assert_eq!(store.get(&key("a"), 501), None);
}

#[test]
fn zero_ttl_expired_at_the_same_instant() {
    let mut store = ExpiringStore::new();
    store.put(key("a"), bytes("v1"), Some(0), 500);
    assert_eq!(store.get(&key("a"), 500), None);
    assert_eq!(store.len(), 0);
}

#[test]
fn overwrite_replaces_fully() {
    let mut store = ExpiringStore::new();
    store.put(key("a"), bytes("v1"), Some(100), 0);
    store.put(key("a"), bytes("v2"), Some(5), 0);
    assert_eq!(store.get(&key("a"), 0), Some(bytes("v2")));
    assert_eq!(store.len(), 1);
    // The first write's longer ttl does not survive the second write.
    assert_eq!(store.get(&key("a"), 5 * NANOS_PER_SEC), None);
}

#[test]
fn unknown_key_not_found() {
    let mut store = ExpiringStore::new();
    assert_eq!(store.get(&key("nonexistent"), 0), None);
    assert_eq!(store.len(), 0);
}

#[test]
fn default_ttl_matches_300() {
    let mut with_default = ExpiringStore::new();
    let mut with_300 = ExpiringStore::new();
    with_default.put(key("a"), bytes("v"), None, 7);
    with_300.put(key("a"), bytes("v"), Some(300), 7);
    for secs in [0u64, 1, 150, 299] {
        let t = 7 + secs * NANOS_PER_SEC;
        assert_eq!(with_default.get(&key("a"), t), Some(bytes("v")));
        assert_eq!(with_300.get(&key("a"), t), Some(bytes("v")));
    }
    let end = 7 + 300 * NANOS_PER_SEC;
    assert_eq!(with_default.get(&key("a"), end), None);
    assert_eq!(with_300.get(&key("a"), end), None);
}

#[test]
fn idempotent_read() {
    let mut store = ExpiringStore::new();
    store.put(key("k"), bytes("value"), Some(60), 10);
    let first = store.get(&key("k"), 20);
    let second = store.get(&key("k"), 20);
    assert_eq!(first, Some(bytes("value")));
    assert_eq!(first, second);
    assert_eq!(store.len(), 1);
}

#[test]
fn writes_in_either_order_never_mix() {
    for v1_first in [true, false] {
        let mut store = ExpiringStore::new();
        if v1_first {
            store.put(key("k"), bytes("v1"), Some(1), 0);
            store.put(key("k"), bytes("v2"), Some(100), 0);
        } else {
            store.put(key("k"), bytes("v2"), Some(100), 0);
            store.put(key("k"), bytes("v1"), Some(1), 0);
        }
        let at_two_secs = store.get(&key("k"), 2 * NANOS_PER_SEC);
        if v1_first {
            assert_eq!(at_two_secs, Some(bytes("v2")));
        } else {
            // v1 with its own 1 s ttl has expired: v2's ttl did not leak in.
            assert_eq!(at_two_secs, None);
        }
    }
}

#[test]
fn expired_read_frees_the_entry() {
    let mut store = ExpiringStore::new();
    store.put(key("old"), bytes("stale"), Some(1), 0);
    store.put(key("keep"), bytes("fresh"), Some(100), 0);
    assert_eq!(store.len(), 2);
    assert_eq!(store.get(&key("old"), 2 * NANOS_PER_SEC), None);
    assert_eq!(store.len(), 1);
    store.put(key("new"), bytes("n"), Some(100), 2 * NANOS_PER_SEC);
    assert_eq!(store.len(), 2);
    assert_eq!(store.get(&key("old"), 2 * NANOS_PER_SEC), None);
    assert_eq!(store.get(&key("keep"), 2 * NANOS_PER_SEC), Some(bytes("fresh")));
    assert_eq!(store.get(&key("new"), 2 * NANOS_PER_SEC), Some(bytes("n")));
}

#[test]
fn expired_entry_lingers_until_read() {
    let mut store = ExpiringStore::new();
    store.put(key("a"), bytes("v"), Some(1), 0);
    store.put(key("b"), bytes("w"), Some(1), 5 * NANOS_PER_SEC);
    assert_eq!(store.len(), 2);
}

#[test]
fn empty_key_and_empty_value() {
    let mut store = ExpiringStore::new();
    store.put(key(""), Vec::new(), Some(10), 0);
    assert_eq!(store.get(&key(""), 0), Some(Vec::new()));
    assert_eq!(store.get(&key("a"), 0), None);
}

#[test]
fn keys_are_independent() {
    let mut store = ExpiringStore::new();
    store.put(key("a"), bytes("1"), Some(10), 0);
    store.put(key("b"), bytes("2"), Some(20), 0);
    assert_eq!(store.get(&key("a"), 15 * NANOS_PER_SEC), None);
    assert_eq!(store.get(&key("b"), 15 * NANOS_PER_SEC), Some(bytes("2")));
}

#[test]
fn expiry_formula() {
    assert_eq!(expires_at(5, 10), 10_000_000_005);
    assert_eq!(expires_at(0, 0), 0);
    assert_eq!(expires_at(123, 0), 123);
}

#[test]
fn expiry_saturates_at_the_end_of_the_clock() {
    assert_eq!(expires_at(0, u64::MAX), u64::MAX);
    assert_eq!(expires_at(u64::MAX - 1, 1), u64::MAX);
    let mut store = ExpiringStore::new();
    store.put(key("forever"), bytes("x"), Some(u64::MAX), 1);
    assert_eq!(store.get(&key("forever"), u64::MAX - 1), Some(bytes("x")));
}

#[test]
fn ttl_default_when_absent() {
    assert_eq!(DEFAULT_TTL_SECS, 300);
    assert_eq!(ttl_or_default(None), 300);
    assert_eq!(ttl_or_default(Some(7)), 7);
}

#[test]
fn parse_ttl_accepts_decimal() {
    assert_eq!(parse_ttl("0"), Some(0));
    assert_eq!(parse_ttl("42"), Some(42));
    assert_eq!(parse_ttl("+42"), Some(42));
    assert_eq!(parse_ttl("007"), Some(7));
    assert_eq!(parse_ttl("18446744073709551615"), Some(u64::MAX));
}

#[test]
fn parse_ttl_rejects_malformed() {
    assert_eq!(parse_ttl(""), None);
    assert_eq!(parse_ttl("+"), None);
    assert_eq!(parse_ttl("-1"), None);
    assert_eq!(parse_ttl("1.5"), None);
    assert_eq!(parse_ttl("abc"), None);
    assert_eq!(parse_ttl("12a"), None);
    assert_eq!(parse_ttl(" 1"), None);
    assert_eq!(parse_ttl("18446744073709551616"), None);
    assert_eq!(parse_ttl("99999999999999999999999"), None);
}

#[test]
fn parse_ttl_agrees_with_std() {
    for text in ["0", "+0", "1", "300", "+17", "-3", "", "x", "4294967296", "18446744073709551616"] {
        assert_eq!(parse_ttl(text), text.parse::<u64>().ok(), "text {:?}", text);
    }
}

#[test]
fn resolve_ttl_text_falls_back_to_default() {
    assert_eq!(resolve_ttl_text(None), 300);
    assert_eq!(resolve_ttl_text(Some("15")), 15);
    assert_eq!(resolve_ttl_text(Some("oops")), 300);
    assert_eq!(resolve_ttl_text(Some("-5")), 300);
}
