//! Tests of the in-memory collection operations.

use wallet::Wallet;

#[test]
fn new_wallet_is_empty() {
    let w = Wallet::new();
    assert!(w.get_keys().is_empty());
    assert!(!w.key_exists("anything"));
}

#[test]
fn add_then_get() {
    let mut w = Wallet::new();
    w.add("site".to_string(), "hunter2".to_string());
    assert_eq!(w.get(&"site".to_string()), Some(&"hunter2".to_string()));
    assert_eq!(w.get(&"other".to_string()), None);
    assert!(w.key_exists("site"));
    assert!(!w.key_exists("sit"));
}

#[test]
fn add_overwrites_existing_key() {
    let mut w = Wallet::new();
    w.add("k".to_string(), "old".to_string());
    w.add("k".to_string(), "new".to_string());
    assert_eq!(w.get(&"k".to_string()), Some(&"new".to_string()));
    assert_eq!(w.get_keys().len(), 1);
}

#[test]
fn del_removes_only_that_key() {
    let mut w = Wallet::new();
    w.add("a".to_string(), "1".to_string());
    w.add("b".to_string(), "2".to_string());
    assert!(w.key_exists("a"));
    w.del(&"a".to_string());
    assert!(!w.key_exists("a"));
    assert_eq!(w.get(&"b".to_string()), Some(&"2".to_string()));
}

#[test]
fn clear_empties_the_store() {
    let mut w = Wallet::new();
    w.add("a".to_string(), "1".to_string());
    w.add("b".to_string(), "2".to_string());
    w.clear();
    assert!(w.get_keys().is_empty());
    assert!(!w.key_exists("a"));
}

#[test]
fn get_keys_lists_keys_in_insertion_order() {
    let mut w = Wallet::new();
    w.add("first".to_string(), "1".to_string());
    w.add("second".to_string(), "2".to_string());
    w.add("third".to_string(), "3".to_string());
    assert_eq!(w.get_keys(), vec!["first", "second", "third"]);
}
