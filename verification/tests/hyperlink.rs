//! Interned hyperlink storage.

use clux::cell::HyperlinkId;
use clux::hyperlink::HyperlinkStore;

#[test]
fn test_intern_and_get() {
    let mut store = HyperlinkStore::new();

    let id1 = store.intern("https://example.com");
    let id2 = store.intern("https://example.com");
    let id3 = store.intern("https://other.com");

    assert_eq!(id1, id2);
    assert_ne!(id1, id3);

    assert_eq!(store.get(id1), Some("https://example.com"));
    assert_eq!(store.get(id3), Some("https://other.com"));
}

#[test]
fn test_unknown_id() {
    let store = HyperlinkStore::new();
    assert_eq!(store.get(HyperlinkId::new(42).unwrap()), None);
}

#[test]
fn ids_count_up_from_one_in_interning_order() {
    let mut store = HyperlinkStore::default();
    assert_eq!(store.intern("a").get(), 1);
    assert_eq!(store.intern("b").get(), 2);
    assert_eq!(store.intern("a").get(), 1);
    assert_eq!(store.intern("c").get(), 3);
    assert_eq!(HyperlinkId::new(0), None);
}

#[test]
fn interned_urls_are_numbered_from_one_in_order_first_seen() {
    let mut store = HyperlinkStore::new();
    let a = store.intern("https://a.io");
    let b = store.intern("https://b.io");
    let a2 = store.intern("https://a.io");
    let c = store.intern("https://c.io");
    assert_eq!((a.get(), b.get(), a2.get(), c.get()), (1, 2, 1, 3));
    assert_eq!(store.get(HyperlinkId::new(3).unwrap()), Some("https://c.io"));
    assert_eq!(store.get(HyperlinkId::new(4).unwrap()), None);
}
