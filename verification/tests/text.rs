use litime::text::{push_decimal, same_text};

#[test]
fn same_text_compares_character_by_character() {
    assert!(same_text("", ""));
    assert!(same_text("red", "red"));
    assert!(same_text("caf\u{e9} \u{2013}", "caf\u{e9} \u{2013}"));
    assert!(!same_text("red", "reD"));
    assert!(!same_text("red", "re"));
    assert!(!same_text("re", "red"));
    assert!(!same_text("", " "));
    assert!(!same_text("caf\u{e9}", "cafe"));
    assert!(!same_text("\u{e9}", "\u{e8}"));
}

#[test]
fn push_decimal_appends_the_numeral() {
    let mut out = String::from("n=");
    push_decimal(&mut out, 0);
    assert_eq!(out, "n=0");
    push_decimal(&mut out, 7);
    assert_eq!(out, "n=07");
    push_decimal(&mut out, 10);
    assert_eq!(out, "n=0710");
    push_decimal(&mut out, 90210);
    assert_eq!(out, "n=071090210");
    let mut out = String::new();
    push_decimal(&mut out, u32::MAX);
    assert_eq!(out, "4294967295");
}
