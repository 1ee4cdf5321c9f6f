use ayuc::raw_token::{InplSegment, LiteralKind, RawToken, RawTokenKind, RawTokenStream};
use ayuc::scanner::Scanner;
use ayuc::span::Span;

fn scan(source: &str) -> Vec<RawToken> {
    let mut stream = RawTokenStream::from_scanner(Scanner::new(source));
    let mut out = Vec::new();
    while let Some(token) = stream.consume() {
        out.push(token);
    }
    out
}

fn spans(tokens: &[RawToken]) -> Vec<(usize, usize)> {
    tokens.iter().map(|t| (t.span.start, t.span.end)).collect()
}

fn kinds(tokens: &[RawToken]) -> Vec<RawTokenKind> {
    tokens.iter().map(|t| t.kind.clone()).collect()
}

#[test]
fn scans_a_let_statement() {
    let tokens = scan("let x = 5;");
    assert_eq!(
        kinds(&tokens),
        vec![
            RawTokenKind::Ident,
            RawTokenKind::Whitespace,
            RawTokenKind::Ident,
            RawTokenKind::Whitespace,
            RawTokenKind::Equals,
            RawTokenKind::Whitespace,
            RawTokenKind::Literal { kind: LiteralKind::Integer { data_span: Span { start: 8, end: 9 } } },
            RawTokenKind::Semi,
            RawTokenKind::Eof,
        ]
    );
    assert_eq!(spans(&tokens), vec![(0, 3), (3, 4), (4, 5), (5, 6), (6, 7), (7, 8), (8, 9), (9, 10), (10, 10)]);
}

#[test]
fn empty_input_gives_only_eof() {
    let tokens = scan("");
    assert_eq!(tokens.len(), 1);
    assert!(tokens[0].is_eof());
    assert_eq!((tokens[0].span.start, tokens[0].span.end), (0, 0));
}

#[test]
fn scans_every_single_character_token() {
    let tokens = scan(";:+-=(){}<>,!/%*");
    assert_eq!(
        kinds(&tokens),
        vec![
            RawTokenKind::Semi,
            RawTokenKind::Colon,
            RawTokenKind::Plus,
            RawTokenKind::Minus,
            RawTokenKind::Equals,
            RawTokenKind::OpenParen,
            RawTokenKind::CloseParen,
            RawTokenKind::OpenBrace,
            RawTokenKind::CloseBrace,
            RawTokenKind::Lt,
            RawTokenKind::Gt,
            RawTokenKind::Comma,
            RawTokenKind::Exclamation,
            RawTokenKind::Slash,
            RawTokenKind::Percentage,
            RawTokenKind::Asterisk,
            RawTokenKind::Eof,
        ]
    );
    for (i, t) in tokens.iter().take(16).enumerate() {
        assert_eq!((t.span.start, t.span.end), (i, i + 1));
    }
}

#[test]
fn line_comment_runs_through_the_newline() {
    let tokens = scan("// hi\nx");
    assert_eq!(kinds(&tokens), vec![RawTokenKind::Comment, RawTokenKind::Ident, RawTokenKind::Eof]);
    assert_eq!(spans(&tokens), vec![(0, 6), (6, 7), (7, 7)]);
}

#[test]
fn block_comment_ends_at_star_slash() {
    let tokens = scan("/* a */b");
    assert_eq!(kinds(&tokens), vec![RawTokenKind::Comment, RawTokenKind::Ident, RawTokenKind::Eof]);
    assert_eq!(spans(&tokens), vec![(0, 7), (7, 8), (8, 8)]);
    let open = scan("/* a");
    assert_eq!(spans(&open), vec![(0, 4), (4, 4)]);
}

#[test]
fn strings_with_escapes_and_without_end() {
    let tokens = scan("\"a\\\"b\"");
    assert_eq!(tokens[0].kind, RawTokenKind::Literal { kind: LiteralKind::Str { terminated: true } });
    assert_eq!(spans(&tokens), vec![(0, 6), (6, 6)]);
    let open = scan("\"ab");
    assert_eq!(open[0].kind, RawTokenKind::Literal { kind: LiteralKind::Str { terminated: false } });
    assert_eq!(spans(&open), vec![(0, 3), (3, 3)]);
}

#[test]
fn integers_keep_their_digits_span() {
    let tokens = scan("0123+");
    assert_eq!(
        tokens[0].kind,
        RawTokenKind::Literal { kind: LiteralKind::Integer { data_span: Span { start: 0, end: 4 } } }
    );
    assert_eq!(spans(&tokens), vec![(0, 4), (4, 5), (5, 5)]);
}

#[test]
fn interpolated_string_segments() {
    let tokens = scan("`a{x}b`");
    assert_eq!(
        tokens[0].kind,
        RawTokenKind::Literal {
            kind: LiteralKind::InterpolatedStr {
                terminated: true,
                segments: vec![
                    InplSegment::Text { span: Span { start: 1, end: 2 } },
                    InplSegment::Var { span: Span { start: 3, end: 4 }, invalid: false, terminated: true },
                    InplSegment::Text { span: Span { start: 5, end: 6 } },
                ],
            },
        }
    );
    assert_eq!(spans(&tokens), vec![(0, 7), (7, 7)]);
}

#[test]
fn interpolated_string_escapes_and_stray_braces() {
    let escaped = scan("`{{`");
    assert_eq!(
        escaped[0].kind,
        RawTokenKind::Literal {
            kind: LiteralKind::InterpolatedStr {
                terminated: true,
                segments: vec![InplSegment::Text { span: Span { start: 1, end: 3 } }],
            },
        }
    );
    let stray = scan("`}`");
    assert_eq!(
        stray[0].kind,
        RawTokenKind::Literal {
            kind: LiteralKind::InterpolatedStr {
                terminated: true,
                segments: vec![InplSegment::InvalidClosing(Span { start: 1, end: 2 })],
            },
        }
    );
    let open = scan("`{y");
    assert_eq!(
        open[0].kind,
        RawTokenKind::Literal {
            kind: LiteralKind::InterpolatedStr {
                terminated: false,
                segments: vec![InplSegment::Var { span: Span { start: 2, end: 3 }, invalid: false, terminated: false }],
            },
        }
    );
    assert_eq!(spans(&open), vec![(0, 3), (3, 3)]);
}

#[test]
fn unicode_identifiers_and_emoji() {
    // An identifier spans the bytes of its characters, from the first byte of the first.
    let tokens = scan("é_1");
    assert_eq!(kinds(&tokens), vec![RawTokenKind::Ident, RawTokenKind::Eof]);
    assert_eq!(spans(&tokens), vec![(0, 4), (4, 4)]);
    let single = scan("é");
    assert_eq!(kinds(&single), vec![RawTokenKind::Ident, RawTokenKind::Eof]);
    assert_eq!(spans(&single), vec![(0, 2), (2, 2)]);
    let emoji = scan("a\u{1F600}b c");
    assert_eq!(
        kinds(&emoji),
        vec![RawTokenKind::InvalidIdent, RawTokenKind::Whitespace, RawTokenKind::Ident, RawTokenKind::Eof]
    );
    assert_eq!(spans(&emoji), vec![(0, 6), (6, 7), (7, 8), (8, 8)]);
    let underscore = scan("_x");
    assert_eq!(kinds(&underscore), vec![RawTokenKind::Ident, RawTokenKind::Eof]);
}

#[test]
fn unknown_characters() {
    let tokens = scan("#");
    assert_eq!(kinds(&tokens), vec![RawTokenKind::Unknown, RawTokenKind::Eof]);
    assert_eq!(spans(&tokens), vec![(0, 1), (1, 1)]);
}

#[test]
fn wide_whitespace_spans_all_its_bytes() {
    let tokens = scan("\u{3000}x");
    assert_eq!(kinds(&tokens), vec![RawTokenKind::Whitespace, RawTokenKind::Ident, RawTokenKind::Eof]);
    assert_eq!(spans(&tokens), vec![(0, 3), (3, 4), (4, 4)]);
}

#[test]
fn ascii_tokens_tile_the_source() {
    let source = "fn main() { print(`hi {name}`) } // end";
    let tokens = scan(source);
    let mut at = 0;
    for t in &tokens {
        assert_eq!(t.span.start, at);
        at = t.span.end;
    }
    assert_eq!(at, source.len());
    assert!(tokens.last().unwrap().is_eof());
}

#[test]
fn scanner_lookahead() {
    let mut scanner = Scanner::new("ab");
    assert_eq!(scanner.first(), Some('a'));
    assert_eq!(scanner.second(), Some('b'));
    assert_eq!(scanner.third(), None);
    let t = scanner.next_token();
    assert_eq!(t.kind, RawTokenKind::Ident);
    assert_eq!(scanner.first(), None);
    assert!(scanner.next_token().is_eof());
}

#[test]
fn stream_peek_and_consume() {
    let tokens = vec![
        RawToken::new(RawTokenKind::Plus, (0, 1)),
        RawToken::new(RawTokenKind::Whitespace, 1..2),
        RawToken::new(RawTokenKind::Eof, 2),
    ];
    let mut stream = RawTokenStream::new(tokens);
    assert_eq!(stream.peek().map(|t| t.kind.clone()), Some(RawTokenKind::Plus));
    assert_eq!(stream.consume().map(|t| t.kind), Some(RawTokenKind::Plus));
    let ws = stream.consume().unwrap();
    assert!(ws.is_whitespace());
    assert_eq!((ws.span.start, ws.span.end), (1, 2));
    let eof = stream.consume().unwrap();
    assert!(eof.is_eof());
    assert_eq!((eof.span.start, eof.span.end), (2, 2));
    assert!(stream.consume().is_none());
    assert!(stream.peek().is_none());
}

#[test]
fn tokens_of_any_text_tile_it() {
    let source = "ñ = \"é\"; // ü\n\u{3000}`é{y}` 😀 ü";
    let tokens = scan(source);
    let mut at = 0;
    for t in &tokens[..tokens.len() - 1] {
        assert_eq!(t.span.start, at);
        assert!(t.span.start < t.span.end);
        assert!(!t.is_eof());
        at = t.span.end;
    }
    assert_eq!(at, source.len());
    let last = tokens.last().unwrap();
    assert!(last.is_eof());
    assert_eq!((last.span.start, last.span.end), (source.len(), source.len()));
}

#[test]
fn runs_comments_and_wide_segments() {
    let ws = scan(" \t\nx");
    assert_eq!(kinds(&ws), vec![RawTokenKind::Whitespace, RawTokenKind::Ident, RawTokenKind::Eof]);
    assert_eq!(spans(&ws), vec![(0, 3), (3, 4), (4, 4)]);
    let block = scan("/*/ x */y");
    assert_eq!(kinds(&block), vec![RawTokenKind::Comment, RawTokenKind::Ident, RawTokenKind::Eof]);
    assert_eq!(spans(&block), vec![(0, 8), (8, 9), (9, 9)]);
    // A text segment starts at the first byte of its first character.
    let wide = scan("`é{x}`");
    assert_eq!(
        kinds(&wide),
        vec![
            RawTokenKind::Literal {
                kind: LiteralKind::InterpolatedStr {
                    terminated: true,
                    segments: vec![
                        InplSegment::Text { span: Span { start: 1, end: 3 } },
                        InplSegment::Var { span: Span { start: 4, end: 5 }, invalid: false, terminated: true },
                    ],
                },
            },
            RawTokenKind::Eof,
        ]
    );
    assert_eq!(spans(&wide), vec![(0, 7), (7, 7)]);
}

#[test]
fn consuming_gives_the_tokens_in_order_then_nothing() {
    let mut scanner = Scanner::new("a+1");
    let expected: Vec<RawToken> = (0..4).map(|_| scanner.next_token()).collect();
    let mut stream = RawTokenStream::from_scanner(Scanner::new("a+1"));
    for want in &expected {
        let peeked = stream.peek().map(|t| (t.kind.clone(), t.span.start, t.span.end));
        let got = stream.consume().unwrap();
        assert_eq!(peeked, Some((got.kind.clone(), got.span.start, got.span.end)));
        assert_eq!((got.kind.clone(), got.span.start, got.span.end), (want.kind.clone(), want.span.start, want.span.end));
    }
    assert!(expected.last().unwrap().is_eof());
    assert!(stream.consume().is_none());
    assert!(stream.peek().is_none());
}
