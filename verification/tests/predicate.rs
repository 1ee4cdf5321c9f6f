use ayuc::predicate::{is_ascii, is_ascii_digit, is_ident_continue, is_ident_start};

#[test]
fn identifier_characters() {
    assert!(is_ident_start('a'));
    assert!(is_ident_start('_'));
    assert!(is_ident_start('é'));
    assert!(!is_ident_start('1'));
    assert!(!is_ident_start('-'));
    assert!(is_ident_continue('1'));
    assert!(is_ident_continue('_'));
    assert!(is_ident_continue('z'));
    assert!(!is_ident_continue(' '));
    assert!(!is_ident_continue('\u{1F600}'));
}

#[test]
fn ascii_classes() {
    assert!(is_ascii_digit('0'));
    assert!(is_ascii_digit('9'));
    assert!(!is_ascii_digit('a'));
    assert!(!is_ascii_digit('٣'));
    assert!(is_ascii('~'));
    assert!(!is_ascii('é'));
}
