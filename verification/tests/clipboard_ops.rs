//! Tests of the best-effort clipboard collaborator. Clipboard access is
//! expected to fail in a headless test environment; these tests check that
//! the operations report an outcome instead of panicking.

use wallet::clipboard::Clipboard;

#[test]
fn test_copy_with_message() {
    let test_text = "Test message";
    let result = Clipboard::copy_with_message(test_text);

    // This test mainly checks that the function doesn't panic
    // Actual clipboard functionality may not work in test environment
    match result {
        Ok(_) => println!("Copy with message succeeded"),
        Err(_) => println!("Copy with message failed (expected in test environment)"),
    }
}

#[test]
fn test_clear() {
    let result = Clipboard::clear();

    // This test mainly checks that the function doesn't panic
    match result {
        Ok(_) => println!("Clear succeeded"),
        Err(_) => println!("Clear failed (expected in test environment)"),
    }
}
