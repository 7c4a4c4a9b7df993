use pitico::service::{
    index, redirect, register, register_value, registration_error_reply, url_not_found,
};
use pitico::store::{new_record, UrlStore};

#[test]
fn fixed_texts() {
    assert_eq!(index(), "Welcome to Pitico, your very very simple URL shortener");
    assert_eq!(register(), "Please provide an URL to be shortened");
}

#[test]
fn end_to_end_scenario() {
    let mut store = UrlStore::new();
    assert_eq!(register_value(&mut store, "example.com/a"), "URL registered under: 1");
    assert_eq!(register_value(&mut store, "example.com/b"), "URL registered under: 2");
    assert_eq!(
        register_value(&mut store, "example.com/a"),
        "URL \"example.com/a\" already registered under 1"
    );
    assert_eq!(store.len(), 2);
    assert_eq!(store.resolve("2"), Some("example.com/b".to_string()));
    assert_eq!(store.resolve("99"), None);
    assert_eq!(redirect(&store, "2"), "http://example.com/b");
    assert_eq!(redirect(&store, "99"), "/url_not_found/99");
}

#[test]
fn redirect_keeps_the_stored_url_verbatim() {
    let mut store = UrlStore::new();
    register_value(&mut store, "https://example.com/x");
    assert_eq!(redirect(&store, "1"), "http://https://example.com/x");
}

#[test]
fn not_found_text() {
    assert_eq!(url_not_found("abc"), "Pitico URL abc not found");
    assert_eq!(url_not_found(""), "Pitico URL  not found");
}

#[test]
fn error_replies() {
    assert_eq!(
        registration_error_reply("disk I/O error"),
        "Error registering URL: disk I/O error"
    );
    let mut store = UrlStore::new();
    store.insert(new_record(u64::MAX, "example.com/last"));
    assert_eq!(
        register_value(&mut store, "example.com/new"),
        "Error registering URL: no identifier is left"
    );
}
