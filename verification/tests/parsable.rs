use ayuc::parsable::Parsed;
use ayuc::span::Span;

#[test]
fn parsed_nodes() {
    let present: Parsed<u32> = Parsed::Present(7);
    let missing: Parsed<u32> = Parsed::Missing(Span { start: 3, end: 3 });
    assert!(!present.is_missing());
    assert!(missing.is_missing());
    assert_eq!(present.unwrap_or(0), 7);
    assert_eq!(missing.unwrap_or(42), 42);
}
