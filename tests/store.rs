use pitico::codec::to_base62;
use pitico::store::{new_record, next_identifier, StoreError, Url, UrlStore};

#[test]
fn next_identifier_follows_the_highest() {
    assert_eq!(next_identifier(None), Some(1));
    assert_eq!(next_identifier(Some(1)), Some(2));
    assert_eq!(next_identifier(Some(61)), Some(62));
    assert_eq!(next_identifier(Some(u64::MAX)), None);
}

#[test]
fn new_record_carries_the_encoded_alias() {
    let r = new_record(62, "example.com/x");
    assert_eq!(r.short_url_integer, 62);
    assert_eq!(r.short_url_string, "10");
    assert_eq!(r.original_url, "example.com/x");
}

#[test]
fn registering_twice_gives_the_same_alias() {
    let mut store = UrlStore::new();
    let first = store.register("example.com/a").unwrap();
    let second = store.register("example.com/a").unwrap();
    assert!(first.created);
    assert!(!second.created);
    assert_eq!(first.record.short_url_string, second.record.short_url_string);
    assert_eq!(first.record.short_url_integer, second.record.short_url_integer);
    assert_eq!(store.len(), 1);
}

#[test]
fn registering_distinct_urls_gives_increasing_identifiers() {
    let mut store = UrlStore::new();
    let a = store.register("example.com/a").unwrap();
    let b = store.register("example.com/b").unwrap();
    assert!(a.created && b.created);
    assert_eq!(a.record.short_url_integer, 1);
    assert_eq!(b.record.short_url_integer, 2);
    assert_ne!(a.record.short_url_string, b.record.short_url_string);
    assert_eq!(store.len(), 2);
}

#[test]
fn resolving_a_registered_alias_gives_the_url() {
    let mut store = UrlStore::new();
    let reg = store.register("https://example.com/a?b=c").unwrap();
    assert_eq!(
        store.resolve(&reg.record.short_url_string),
        Some("https://example.com/a?b=c".to_string())
    );
}

#[test]
fn resolving_an_unknown_alias_gives_nothing() {
    let mut store = UrlStore::new();
    assert_eq!(store.resolve("1"), None);
    store.register("example.com/a").unwrap();
    assert_eq!(store.resolve("99"), None);
    assert_eq!(store.resolve(""), None);
}

#[test]
fn lookups_find_records_by_either_field() {
    let mut store = UrlStore::new();
    store.register("example.com/a").unwrap();
    store.register("example.com/b").unwrap();
    let by_alias = store.find_by_alias("2").unwrap();
    assert_eq!(by_alias.original_url, "example.com/b");
    let by_url = store.find_by_original_url("example.com/a").unwrap();
    assert_eq!(by_url.short_url_string, "1");
    assert!(store.find_by_original_url("example.com/c").is_none());
}

#[test]
fn highest_identifier_is_the_maximum() {
    let mut store = UrlStore::new();
    assert_eq!(store.highest_identifier(), None);
    store.insert(new_record(7, "example.com/seven"));
    store.insert(new_record(3, "example.com/three"));
    assert_eq!(store.highest_identifier(), Some(7));
    let reg = store.register("example.com/next").unwrap();
    assert_eq!(reg.record.short_url_integer, 8);
    assert_eq!(reg.record.short_url_string, "8");
}

#[test]
fn insert_ignores_any_collision() {
    let mut store = UrlStore::new();
    store.insert(new_record(1, "example.com/a"));
    store.insert(new_record(1, "example.com/other"));
    store.insert(new_record(2, "example.com/a"));
    let same_alias = Url {
        short_url_integer: 1,
        short_url_string: to_base62(&1),
        original_url: "example.com/third".to_string(),
    };
    store.insert(same_alias);
    assert_eq!(store.len(), 1);
    assert_eq!(store.resolve("1"), Some("example.com/a".to_string()));
    store.insert(new_record(2, "example.com/b"));
    assert_eq!(store.len(), 2);
}

#[test]
fn registration_fails_when_identifiers_run_out() {
    let mut store = UrlStore::new();
    store.insert(new_record(u64::MAX, "example.com/last"));
    let err = store.register("example.com/more").unwrap_err();
    assert_eq!(err, StoreError::IdentifiersExhausted);
    assert_eq!(store.len(), 1);
    let again = store.register("example.com/last").unwrap();
    assert!(!again.created);
    assert_eq!(again.record.short_url_string, "LygHa16AHYF");
}
