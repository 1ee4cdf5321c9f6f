use ayuc::source::{index_source_str, SourceCache, SourceFile, SourceSpan};
use ayuc::span::{index_str, Span};

#[test]
fn merge_takes_the_outer_bounds() {
    let mut a = Span { start: 0, end: 10 };
    a.merge(Span { start: 10, end: 15 });
    assert_eq!(a, Span { start: 0, end: 15 });
    let mut b = Span { start: 5, end: 8 };
    b.merge(Span { start: 6, end: 7 });
    assert_eq!(b, Span { start: 5, end: 8 });
    let mut c = Span { start: 5, end: 8 };
    c.merge(Span { start: 1, end: 20 });
    assert_eq!(c, Span { start: 1, end: 20 });
}

#[test]
fn conversions_into_spans() {
    assert_eq!(Span::from(3usize), Span { start: 3, end: 3 });
    assert_eq!(Span::from((2usize, 9usize)), Span { start: 2, end: 9 });
    assert_eq!(Span::from(4..6), Span { start: 4, end: 6 });
    let s = Span { start: 1, end: 2 };
    assert_eq!(Span::from(&s), s);
    assert_eq!(Span::default(), Span { start: 0, end: 0 });
    assert_eq!(s.range(), 1..2);
}

#[test]
fn indexing_a_source_by_span() {
    let source = "héllo world";
    assert_eq!(index_str(source, Span { start: 0, end: 6 }), "héllo");
    assert_eq!(index_str(source, Span { start: 7, end: 12 }), "world");
    assert_eq!(index_str(source, Span { start: 3, end: 3 }), "");
}

#[test]
fn source_files() {
    let file = SourceFile::new("main.ayu", "fn main() {}");
    assert_eq!(file.name, "main.ayu");
    assert_eq!(file.data, "fn main() {}");
    let memory = SourceFile::from_memory("x");
    assert_eq!(memory.name, "<memory>");
    assert_eq!(memory.data, "x");
    let renamed = memory.with_name("other.ayu");
    assert_eq!(renamed.name, "other.ayu");
    assert_eq!(renamed.data, "x");
    let unknown = SourceFile::from("y");
    assert_eq!(unknown.name, "<unknown>");
    assert_eq!(unknown.data, "y");
}

#[test]
fn source_spans() {
    let s = SourceSpan::new(3, Span { start: 4, end: 9 });
    assert_eq!(s.file_id, 3);
    assert_eq!(*s.source(), 3);
    assert_eq!(s.start(), 4);
    assert_eq!(s.end(), 9);
    assert_eq!(s.as_span(), Span { start: 4, end: 9 });
}

#[test]
fn source_cache_hands_out_ids_in_order() {
    let mut cache = SourceCache::new();
    let a = cache.add("a.ayu".to_string(), "fn a() {}".to_string());
    let b = cache.add("b.ayu".to_string(), "fn b() {}".to_string());
    assert_eq!((a, b), (0, 1));
    assert_eq!(cache.name_of(a).as_deref().map(|s| s.as_str()), Some("a.ayu"));
    assert_eq!(cache.source_of(b).as_deref().map(|s| s.as_str()), Some("fn b() {}"));
    assert!(cache.name_of(2).is_none());
    assert!(cache.source_of(7).is_none());
}

#[test]
fn indexing_a_source_by_source_span() {
    let source = "let x = 1;";
    assert_eq!(index_source_str(source, SourceSpan::new(0, Span { start: 4, end: 5 })), "x");
    assert_eq!(index_source_str(source, SourceSpan::new(9, Span { start: 0, end: 3 })), "let");
}

#[test]
fn merging_in_any_order_gives_the_same_span() {
    let spans = [Span { start: 3, end: 4 }, Span { start: 0, end: 2 }, Span { start: 7, end: 9 }];
    let mut ab = spans[0];
    ab.merge(spans[1]);
    let mut ba = spans[1];
    ba.merge(spans[0]);
    assert_eq!(ab, ba);
    let mut left = ab;
    left.merge(spans[2]);
    let mut bc = spans[1];
    bc.merge(spans[2]);
    let mut right = spans[0];
    right.merge(bc);
    assert_eq!(left, right);
    assert_eq!(left, Span { start: 0, end: 9 });
    let mut same = spans[2];
    same.merge(spans[2]);
    assert_eq!(same, spans[2]);
}

#[test]
fn a_cache_gives_back_what_was_added() {
    let mut cache = SourceCache::new();
    let a = cache.add("a.ayu".to_string(), "let x = 1".to_string());
    let b = cache.add("b.ayu".to_string(), "x".to_string());
    assert_eq!((a, b), (0, 1));
    assert_eq!(cache.name_of(a).unwrap().as_str(), "a.ayu");
    assert_eq!(cache.source_of(a).unwrap().as_str(), "let x = 1");
    assert_eq!(cache.name_of(b).unwrap().as_str(), "b.ayu");
    assert!(cache.name_of(2).is_none());
    assert!(cache.source_of(2).is_none());
}

#[test]
fn a_source_span_derefs_to_its_span_and_can_be_moved() {
    let mut ss = SourceSpan::new(3, Span { start: 1, end: 4 });
    assert_eq!((ss.start, ss.end), (1, 4));
    assert_eq!(*ss, Span { start: 1, end: 4 });
    ss.set_span(Span { start: 7, end: 4 });
    assert_eq!(ss.as_span(), Span { start: 7, end: 4 });
    assert_eq!(ss.file_id, 3);
}
