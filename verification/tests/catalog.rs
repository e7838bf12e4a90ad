use book_catalog::catalog::Library;
use book_catalog::hex::u64_to_hex;

#[test]
fn add_then_find_returns_id() {
    let mut lib = Library::new();
    lib.add_book("Dune", "Frank Herbert");
    assert!(lib.get_book_id("Dune", "Frank Herbert").is_some());
}

#[test]
fn find_on_empty_catalog_is_none() {
    let lib = Library::new();
    assert_eq!(lib.get_book_id("Dune", "Frank Herbert"), None);
}

#[test]
fn find_is_case_sensitive_and_exact() {
    let mut lib = Library::new();
    lib.add_book("Dune", "Frank Herbert");
    assert_eq!(lib.get_book_id("dune", "Frank Herbert"), None);
    assert_eq!(lib.get_book_id("Dune", "Frank  Herbert"), None);
}

#[test]
fn generated_id_is_title_hyphen_hex() {
    let mut lib = Library::new();
    lib.add_book_keyed("My Book", "Someone", 0x3f9a2bc10de4f1aa);
    assert_eq!(
        lib.get_book_id("My Book", "Someone"),
        Some("My Book-3f9a2bc10de4f1aa".to_string())
    );
}

#[test]
fn fresh_record_not_borrowed() {
    let mut lib = Library::new();
    lib.add_book_keyed("Dune", "Frank Herbert", 7);
    assert_eq!(
        lib.list_books(),
        vec!["Dune by Frank Herbert (Borrowed: No)".to_string()]
    );
}

#[test]
fn borrow_available_succeeds() {
    let mut lib = Library::new();
    lib.add_book_keyed("Dune", "Frank Herbert", 7);
    let r = lib.borrow_book("Dune", "Frank Herbert");
    assert_eq!(r, Ok("[SUCCESS] - Book: {title} is borrowed!".to_string()));
    assert_eq!(
        lib.list_books(),
        vec!["Dune by Frank Herbert (Borrowed: Yes)".to_string()]
    );
}

#[test]
fn borrow_borrowed_fails_unchanged() {
    let mut lib = Library::new();
    lib.add_book_keyed("Dune", "Frank Herbert", 7);
    assert!(lib.borrow_book("Dune", "Frank Herbert").is_ok());
    let r = lib.borrow_book("Dune", "Frank Herbert");
    assert_eq!(r, Err("Book already borrowed!".to_string()));
    assert_eq!(
        lib.list_books(),
        vec!["Dune by Frank Herbert (Borrowed: Yes)".to_string()]
    );
}

#[test]
fn return_borrowed_succeeds() {
    let mut lib = Library::new();
    lib.add_book_keyed("Dune", "Frank Herbert", 7);
    assert!(lib.borrow_book("Dune", "Frank Herbert").is_ok());
    let r = lib.return_book("Dune", "Frank Herbert");
    assert_eq!(r, Ok("[SUCCESS] - Book: {title} is returned!".to_string()));
    assert_eq!(
        lib.list_books(),
        vec!["Dune by Frank Herbert (Borrowed: No)".to_string()]
    );
}

#[test]
fn return_available_fails_unchanged() {
    let mut lib = Library::new();
    lib.add_book_keyed("Dune", "Frank Herbert", 7);
    let r = lib.return_book("Dune", "Frank Herbert");
    assert_eq!(r, Err("Book not already borrowed!".to_string()));
    assert_eq!(
        lib.list_books(),
        vec!["Dune by Frank Herbert (Borrowed: No)".to_string()]
    );
}

#[test]
fn failed_borrows_idempotent() {
    let mut lib = Library::new();
    lib.add_book_keyed("Dune", "Frank Herbert", 7);
    assert!(lib.borrow_book("Dune", "Frank Herbert").is_ok());
    let lines = lib.list_books();
    let e1 = lib.borrow_book("Dune", "Frank Herbert");
    let e2 = lib.borrow_book("Dune", "Frank Herbert");
    assert_eq!(e1, e2);
    assert_eq!(e1, Err("Book already borrowed!".to_string()));
    assert_eq!(lib.list_books(), lines);
    assert_eq!(lib.record_count(), 1);
}

#[test]
fn duplicate_adds_make_two_records() {
    let mut lib = Library::new();
    lib.add_book_keyed("Dune", "Frank Herbert", 1);
    lib.add_book_keyed("Dune", "Frank Herbert", 2);
    assert_eq!(lib.record_count(), 2);
    // the lookup resolves to the first of the two entries
    assert_eq!(
        lib.get_book_id("Dune", "Frank Herbert"),
        Some("Dune-1".to_string())
    );
}

#[test]
fn duplicate_random_adds_make_two_records() {
    let mut lib = Library::new();
    lib.add_book("Dune", "Frank Herbert");
    lib.add_book("Dune", "Frank Herbert");
    assert_eq!(lib.record_count(), 2);
}

#[test]
fn same_key_replaces_record() {
    let mut lib = Library::new();
    lib.add_book_keyed("Dune", "Frank Herbert", 7);
    lib.add_book_keyed("Dune", "Frank Herbert", 7);
    assert_eq!(lib.record_count(), 1);
}

#[test]
fn borrow_missing_reports_success() {
    let mut lib = Library::new();
    let r = lib.borrow_book("Unknown Title", "Nobody");
    assert_eq!(r, Ok("[SUCCESS] - Book: {title} is borrowed!".to_string()));
    assert_eq!(lib.record_count(), 0);
}

#[test]
fn return_missing_reports_success() {
    let mut lib = Library::new();
    let r = lib.return_book("Unknown Title", "Nobody");
    assert_eq!(r, Ok("[SUCCESS] - Book: {title} is returned!".to_string()));
    assert_eq!(lib.record_count(), 0);
}

#[test]
fn empty_strings_accepted() {
    let mut lib = Library::new();
    lib.add_book_keyed("", "", 0);
    assert_eq!(lib.record_count(), 1);
    assert_eq!(lib.get_book_id("", ""), Some("-0".to_string()));
    assert_eq!(lib.list_books(), vec![" by  (Borrowed: No)".to_string()]);
}

#[test]
fn listing_follows_storage_order() {
    let mut lib = Library::new();
    lib.add_book_keyed("Dune", "Frank Herbert", 1);
    lib.add_book_keyed("Emma", "Jane Austen", 2);
    assert!(lib.borrow_book("Emma", "Jane Austen").is_ok());
    assert_eq!(
        lib.list_books(),
        vec![
            "Dune by Frank Herbert (Borrowed: No)".to_string(),
            "Emma by Jane Austen (Borrowed: Yes)".to_string(),
        ]
    );
}

#[test]
fn hex_rendering_exact() {
    assert_eq!(u64_to_hex(0), "0");
    assert_eq!(u64_to_hex(10), "a");
    assert_eq!(u64_to_hex(16), "10");
    assert_eq!(u64_to_hex(255), "ff");
    assert_eq!(u64_to_hex(0xdeadbeef), "deadbeef");
    assert_eq!(u64_to_hex(u64::MAX), "ffffffffffffffff");
}
