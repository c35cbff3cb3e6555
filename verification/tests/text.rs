use bees::common::text::{decimal_text, join_commas_text, remove_char, same_text, signed_decimal_text, split_commas_text};
use bees::server::{listen_addr, ping_message, server_addr};

#[test]
fn numerals() {
    assert_eq!(decimal_text(0), "0");
    assert_eq!(decimal_text(8848), "8848");
    assert_eq!(decimal_text(u64::MAX), u64::MAX.to_string());
    assert_eq!(signed_decimal_text(-42), "-42");
    assert_eq!(signed_decimal_text(i32::MIN), i32::MIN.to_string());
    assert_eq!(signed_decimal_text(7), "7");
}

#[test]
fn split_and_join() {
    assert_eq!(split_commas_text("a,b,,c"), vec!["a", "b", "", "c"]);
    assert_eq!(split_commas_text(""), vec![""]);
    assert_eq!(split_commas_text("a,"), vec!["a", ""]);
    let parts = vec!["x".to_string(), "y".to_string()];
    assert_eq!(join_commas_text(&parts), "x,y");
    assert_eq!(join_commas_text(&vec![]), "");
    assert_eq!(split_commas_text(&join_commas_text(&parts)), parts);
}

#[test]
fn removing_and_comparing() {
    assert_eq!(remove_char("/a/b/", '/'), "ab");
    assert_eq!(remove_char("\"x\"", '"'), "x");
    assert!(same_text("aé", "aé"));
    assert!(!same_text("a", "ab"));
}

#[test]
fn server_texts() {
    assert_eq!(listen_addr("3205"), "0.0.0.0:3205");
    assert_eq!(server_addr("10.0.0.1", "3205"), "10.0.0.1:3205");
    assert_eq!(ping_message("10.0.0.1:3205"), "Hello,I`m 10.0.0.1:3205!");
}
