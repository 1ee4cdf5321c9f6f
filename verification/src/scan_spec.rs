//! The lexical grammar that the scanner follows, over the source text as a
//! sequence of characters, with the byte offsets of its UTF-8 encoding.
use vstd::prelude::*;
use vstd::utf8::{encode_scalar, encode_utf8};

use crate::predicate::{ident_continue, ident_start, is_ascii_digit_spec, is_ascii_spec, non_ascii_emoji, whitespace_char};
use crate::raw_token::{InplSegment, SpecLiteralKind, SpecRawToken, SpecRawTokenKind};
use crate::span::Span;

verus! {

/// The number of bytes in the UTF-8 encoding of `c`.
pub open spec fn width(c: char) -> nat {
    encode_scalar(c as u32).len()
}

/// The byte offset of the `i`-th character of `s`.
pub open spec fn offset(s: Seq<char>, i: int) -> int {
    encode_utf8(s.take(i)).len() as int
}

/// The byte offset of the `i`-th character, as a `usize` span bound.
pub open spec fn ofs(s: Seq<char>, i: int) -> usize {
    offset(s, i) as usize
}

/// A span of byte offsets.
pub open spec fn sp(start: int, end: int) -> Span {
    Span { start: start as usize, end: end as usize }
}

/// The first index at or after `i` whose character does not satisfy `p`.
pub open spec fn skip_while(s: Seq<char>, i: int, p: spec_fn(char) -> bool) -> int
    decreases s.len() - i,
{
    if 0 <= i < s.len() && p(s[i]) {
        skip_while(s, i + 1, p)
    } else {
        i
    }
}

pub open spec fn ws_pred() -> spec_fn(char) -> bool {
    |c: char| whitespace_char(c)
}

pub open spec fn continue_pred() -> spec_fn(char) -> bool {
    |c: char| ident_continue(c)
}

pub open spec fn invalid_ident_pred() -> spec_fn(char) -> bool {
    |c: char| ident_continue(c) || non_ascii_emoji(c)
}

pub open spec fn digit_pred() -> spec_fn(char) -> bool {
    |c: char| is_ascii_digit_spec(c)
}

/// Where an identifier continued at `i` ends, and whether it holds a non-ASCII emoji
/// (which makes it invalid).
pub open spec fn ident_end(s: Seq<char>, i: int) -> (int, bool) {
    let j = skip_while(s, i, continue_pred());
    if 0 <= j < s.len() && non_ascii_emoji(s[j]) {
        (skip_while(s, j, invalid_ident_pred()), true)
    } else {
        (j, false)
    }
}

/// Where a string literal whose opening quote precedes `i` ends, and whether it is
/// closed. A backslash escapes a following backslash or quote.
pub open spec fn string_end(s: Seq<char>, i: int) -> (int, bool)
    decreases s.len() - i,
{
    if i < 0 || i >= s.len() {
        (s.len() as int, false)
    } else if s[i] == '"' {
        (i + 1, true)
    } else if s[i] == '\\' && i + 1 < s.len() && (s[i + 1] == '\\' || s[i + 1] == '"') {
        string_end(s, i + 2)
    } else {
        string_end(s, i + 1)
    }
}

/// Where a text segment of an interpolated string starting at `i` ends: before the next
/// backtick or `{`; a backslash takes the character after it along.
pub open spec fn text_end(s: Seq<char>, i: int) -> int
    decreases s.len() - i,
{
    if i < 0 || i >= s.len() {
        s.len() as int
    } else if s[i] == '`' || s[i] == '{' {
        i
    } else if s[i] == '\\' {
        if i + 1 < s.len() {
            text_end(s, i + 2)
        } else {
            s.len() as int
        }
    } else {
        text_end(s, i + 1)
    }
}

/// The end of a line comment whose body starts at `i`: just after the next newline.
pub open spec fn line_end(s: Seq<char>, i: int) -> int
    decreases s.len() - i,
{
    if i < 0 || i >= s.len() {
        s.len() as int
    } else if s[i] == '\n' {
        i + 1
    } else {
        line_end(s, i + 1)
    }
}

/// The end of a block comment whose body starts at `i`: just after the next `*/`.
pub open spec fn block_end(s: Seq<char>, i: int) -> int
    decreases s.len() - i,
{
    if i < 0 || i >= s.len() {
        s.len() as int
    } else if s[i] == '*' && i + 1 < s.len() && s[i + 1] == '/' {
        i + 2
    } else {
        block_end(s, i + 1)
    }
}

pub proof fn lemma_skip_while_bounds(s: Seq<char>, i: int, p: spec_fn(char) -> bool)
    requires
        0 <= i <= s.len(),
    ensures
        i <= skip_while(s, i, p) <= s.len(),
        skip_while(s, i, p) < s.len() ==> !p(s[skip_while(s, i, p)]),
    decreases s.len() - i,
{
    if 0 <= i < s.len() && p(s[i]) {
        lemma_skip_while_bounds(s, i + 1, p);
    }
}

pub proof fn lemma_ident_end_bounds(s: Seq<char>, i: int)
    requires
        0 <= i <= s.len(),
    ensures
        i <= ident_end(s, i).0 <= s.len(),
{
    lemma_skip_while_bounds(s, i, continue_pred());
    let j = skip_while(s, i, continue_pred());
    if 0 <= j < s.len() {
        lemma_skip_while_bounds(s, j, invalid_ident_pred());
    }
}

pub proof fn lemma_string_end_bounds(s: Seq<char>, i: int)
    requires
        0 <= i <= s.len(),
    ensures
        i <= string_end(s, i).0 <= s.len(),
    decreases s.len() - i,
{
    if i < s.len() && s[i] != '"' {
        if s[i] == '\\' && i + 1 < s.len() && (s[i + 1] == '\\' || s[i + 1] == '"') {
            lemma_string_end_bounds(s, i + 2);
        } else {
            lemma_string_end_bounds(s, i + 1);
        }
    }
}

pub proof fn lemma_text_end_bounds(s: Seq<char>, i: int)
    requires
        0 <= i <= s.len(),
    ensures
        i <= text_end(s, i) <= s.len(),
    decreases s.len() - i,
{
    if i < s.len() && s[i] != '`' && s[i] != '{' {
        if s[i] == '\\' {
            if i + 1 < s.len() {
                lemma_text_end_bounds(s, i + 2);
            }
        } else {
            lemma_text_end_bounds(s, i + 1);
        }
    }
}

pub proof fn lemma_line_end_bounds(s: Seq<char>, i: int)
    requires
        0 <= i <= s.len(),
    ensures
        i <= line_end(s, i) <= s.len(),
    decreases s.len() - i,
{
    if i < s.len() && s[i] != '\n' {
        lemma_line_end_bounds(s, i + 1);
    }
}

pub proof fn lemma_block_end_bounds(s: Seq<char>, i: int)
    requires
        0 <= i <= s.len(),
    ensures
        i <= block_end(s, i) <= s.len(),
    decreases s.len() - i,
{
    if i < s.len() && !(s[i] == '*' && i + 1 < s.len() && s[i + 1] == '/') {
        lemma_block_end_bounds(s, i + 1);
    }
}

/// One step of an interpolated string's body starting at `i < s.len()`: the segment it
/// adds (if any), where the scan goes on, and whether it hit the closing backtick. A
/// segment starts at the byte offset of its first character.
pub open spec fn interp_step(s: Seq<char>, i: int) -> (Option<InplSegment>, int, bool) {
    let c = s[i];
    let j = i + 1;
    if c == '`' {
        (None, j, true)
    } else if c == '{' && j < s.len() && s[j] == '{' {
        let e = text_end(s, j + 1);
        (Some(InplSegment::Text { span: sp(offset(s, i), offset(s, e)) }), e, false)
    } else if c == '{' {
        let (e, invalid) = ident_end(s, j);
        let terminated = e < s.len() && s[e] == '}';
        let k = if terminated { e + 1 } else { e };
        (Some(InplSegment::Var { span: sp(offset(s, j), offset(s, e)), invalid, terminated }), k, false)
    } else if c == '}' && j < s.len() && s[j] == '}' {
        let e = text_end(s, j + 1);
        (Some(InplSegment::Text { span: sp(offset(s, i), offset(s, e)) }), e, false)
    } else if c == '}' {
        (Some(InplSegment::InvalidClosing(sp(offset(s, i), offset(s, j)))), j, false)
    } else {
        let e = text_end(s, j);
        (Some(InplSegment::Text { span: sp(offset(s, i), offset(s, e)) }), e, false)
    }
}

pub proof fn lemma_interp_step_bounds(s: Seq<char>, i: int)
    requires
        0 <= i < s.len(),
    ensures
        i < interp_step(s, i).1 <= s.len(),
{
    let j = i + 1;
    if j < s.len() {
        lemma_text_end_bounds(s, j + 1);
    }
    lemma_text_end_bounds(s, j);
    lemma_ident_end_bounds(s, j);
}

/// The body of an interpolated string starting at `i`: its segments, whether it is
/// closed by a backtick, and where it ends.
pub open spec fn interp(s: Seq<char>, i: int) -> (Seq<InplSegment>, bool, int)
    decreases s.len() - i,
{
    if i < 0 || i >= s.len() {
        (Seq::empty(), false, s.len() as int)
    } else {
        let (seg, k, closed) = interp_step(s, i);
        if closed {
            (Seq::empty(), true, k)
        } else {
            proof {
                lemma_interp_step_bounds(s, i);
            }
            let rest = interp(s, k);
            let segs = match seg {
                Some(g) => seq![g] + rest.0,
                None => rest.0,
            };
            (segs, rest.1, rest.2)
        }
    }
}

pub proof fn lemma_interp_bounds(s: Seq<char>, i: int)
    requires
        0 <= i <= s.len(),
    ensures
        i <= interp(s, i).2 <= s.len(),
    decreases s.len() - i,
{
    if i < s.len() {
        lemma_interp_step_bounds(s, i);
        let (seg, k, closed) = interp_step(s, i);
        if !closed {
            lemma_interp_bounds(s, k);
        }
    }
}

/// The kind of the one-character punctuation token that `c` starts, if any.
pub open spec fn single_kind(c: char) -> Option<SpecRawTokenKind> {
    if c == ';' {
        Some(SpecRawTokenKind::Semi)
    } else if c == ':' {
        Some(SpecRawTokenKind::Colon)
    } else if c == '+' {
        Some(SpecRawTokenKind::Plus)
    } else if c == '-' {
        Some(SpecRawTokenKind::Minus)
    } else if c == '=' {
        Some(SpecRawTokenKind::Equals)
    } else if c == '(' {
        Some(SpecRawTokenKind::OpenParen)
    } else if c == ')' {
        Some(SpecRawTokenKind::CloseParen)
    } else if c == '{' {
        Some(SpecRawTokenKind::OpenBrace)
    } else if c == '}' {
        Some(SpecRawTokenKind::CloseBrace)
    } else if c == '<' {
        Some(SpecRawTokenKind::Lt)
    } else if c == '>' {
        Some(SpecRawTokenKind::Gt)
    } else if c == ',' {
        Some(SpecRawTokenKind::Comma)
    } else if c == '!' {
        Some(SpecRawTokenKind::Exclamation)
    } else if c == '/' {
        Some(SpecRawTokenKind::Slash)
    } else if c == '%' {
        Some(SpecRawTokenKind::Percentage)
    } else if c == '*' {
        Some(SpecRawTokenKind::Asterisk)
    } else {
        None
    }
}

pub open spec fn tok(kind: SpecRawTokenKind, span: Span) -> SpecRawToken {
    SpecRawToken { kind, span }
}

/// The token that starts at character index `i` of `s`, and the index where the next one
/// starts. The token's span runs from the byte offset of its first character to that of
/// the character after it. At the end of the input the token is `Eof`, with the empty span
/// at `source_len`, and the scan stays put.
pub open spec fn next_token_spec(s: Seq<char>, i: int, source_len: usize) -> (SpecRawToken, int) {
    if i < 0 || i >= s.len() {
        (tok(SpecRawTokenKind::Eof, Span { start: source_len, end: source_len }), i)
    } else {
        let c = s[i];
        let j = i + 1;
        let st = offset(s, i);
        if whitespace_char(c) {
            let e = skip_while(s, j, ws_pred());
            (tok(SpecRawTokenKind::Whitespace, sp(st, offset(s, e))), e)
        } else if ident_start(c) {
            let (e, invalid) = ident_end(s, j);
            let kind = if invalid { SpecRawTokenKind::InvalidIdent } else { SpecRawTokenKind::Ident };
            (tok(kind, sp(st, offset(s, e))), e)
        } else if c == '/' && j < s.len() && s[j] == '/' {
            let e = line_end(s, j + 1);
            (tok(SpecRawTokenKind::Comment, sp(st, offset(s, e))), e)
        } else if c == '/' && j < s.len() && s[j] == '*' {
            let e = block_end(s, j + 1);
            (tok(SpecRawTokenKind::Comment, sp(st, offset(s, e))), e)
        } else if single_kind(c) is Some {
            (tok(single_kind(c)->0, sp(st, offset(s, j))), j)
        } else if c == '"' {
            let (e, terminated) = string_end(s, j);
            (tok(SpecRawTokenKind::Literal { kind: SpecLiteralKind::Str { terminated } }, sp(st, offset(s, e))), e)
        } else if c == '`' {
            let (segments, terminated, e) = interp(s, j);
            (tok(SpecRawTokenKind::Literal { kind: SpecLiteralKind::InterpolatedStr { terminated, segments } }, sp(st, offset(s, e))), e)
        } else if is_ascii_digit_spec(c) {
            let e = skip_while(s, j, digit_pred());
            let data_span = sp(st, offset(s, e));
            (tok(SpecRawTokenKind::Literal { kind: SpecLiteralKind::Integer { data_span } }, data_span), e)
        } else {
            (tok(SpecRawTokenKind::Unknown, sp(st, offset(s, j))), j)
        }
    }
}

pub proof fn lemma_next_token_bounds(s: Seq<char>, i: int, source_len: usize)
    requires
        0 <= i <= s.len(),
    ensures
        i < s.len() ==> i < next_token_spec(s, i, source_len).1 <= s.len(),
        i == s.len() ==> next_token_spec(s, i, source_len).1 == i,
{
    if i < s.len() {
        let j = i + 1;
        lemma_skip_while_bounds(s, j, ws_pred());
        lemma_skip_while_bounds(s, j, digit_pred());
        lemma_ident_end_bounds(s, j);
        lemma_string_end_bounds(s, j);
        lemma_interp_bounds(s, j);
        if j < s.len() {
            lemma_line_end_bounds(s, j + 1);
            lemma_block_end_bounds(s, j + 1);
        }
    }
}


/// The tokens that scanning `s` from character index `i` produces, up to and including
/// the first `Eof`.
pub open spec fn tokenize(s: Seq<char>, i: int, source_len: usize) -> Seq<SpecRawToken>
    decreases s.len() - i,
{
    if i < 0 || i >= s.len() {
        seq![tok(SpecRawTokenKind::Eof, Span { start: source_len, end: source_len })]
    } else {
        proof {
            lemma_next_token_bounds(s, i, source_len);
        }
        let (t, e) = next_token_spec(s, i, source_len);
        seq![t] + tokenize(s, e, source_len)
    }
}

pub proof fn lemma_tokenize_unfold(s: Seq<char>, i: int, source_len: usize)
    requires
        0 <= i <= s.len(),
    ensures
        i < s.len() ==> tokenize(s, i, source_len) == seq![next_token_spec(s, i, source_len).0]
            + tokenize(s, next_token_spec(s, i, source_len).1, source_len),
        i == s.len() ==> tokenize(s, i, source_len) == seq![tok(SpecRawTokenKind::Eof, Span { start: source_len, end: source_len })],
{
}

/// A token's span runs from the byte offset of its first character to the byte offset
/// where the scan goes on, and it is not empty and not `Eof`.
pub proof fn lemma_token_span(s: Seq<char>, i: int, source_len: usize)
    requires
        0 <= i < s.len(),
        offset(s, s.len() as int) <= usize::MAX,
    ensures
        ({
            let (t, e) = next_token_spec(s, i, source_len);
            &&& t.span.end == offset(s, e)
            &&& t.span.start == offset(s, i)
            &&& t.span.start < t.span.end
            &&& !(t.kind is Eof)
        }),
{
    lemma_next_token_bounds(s, i, source_len);
    let (t, e) = next_token_spec(s, i, source_len);
    lemma_offset_step(s, i);
    lemma_width(s[i]);
    lemma_offset_mono(s, i + 1, e);
    lemma_offset_mono(s, e, s.len() as int);
    lemma_offset_mono(s, 0, i);
    lemma_offset_zero(s);
}

/// The tokens of a text, scanned from index `i`, tile it from the byte offset of `i` to
/// its end.
pub proof fn lemma_tokenize_tiles(s: Seq<char>, i: int)
    requires
        offset(s, s.len() as int) <= usize::MAX,
        0 <= i <= s.len(),
    ensures
        ({
            let n = offset(s, s.len() as int) as usize;
            let ts = tokenize(s, i, n);
            &&& ts.len() >= 1
            &&& ts[0].span.start == offset(s, i)
            &&& ts.last() == tok(SpecRawTokenKind::Eof, Span { start: n, end: n })
            &&& forall|k: int| 0 <= k < ts.len() - 1 ==> {
                &&& !(#[trigger] ts[k].kind is Eof)
                &&& ts[k].span.start < ts[k].span.end
                &&& ts[k].span.end == ts[k + 1].span.start
            }
        }),
    decreases s.len() - i,
{
    let n = offset(s, s.len() as int) as usize;
    if i < s.len() {
        lemma_next_token_bounds(s, i, n);
        let (t, e) = next_token_spec(s, i, n);
        lemma_token_span(s, i, n);
        lemma_tokenize_tiles(s, e);
        let rest = tokenize(s, e, n);
        let ts = tokenize(s, i, n);
        assert(ts == seq![t] + rest);
        assert forall|k: int| 0 <= k < ts.len() - 1 implies {
            &&& !(#[trigger] ts[k].kind is Eof)
            &&& ts[k].span.start < ts[k].span.end
            &&& ts[k].span.end == ts[k + 1].span.start
        } by {
            if k > 0 {
                assert(ts[k] == rest[k - 1]);
                assert(ts[k + 1] == rest[k]);
            } else {
                assert(ts[1] == rest[0]);
            }
        }
    } else {
        lemma_offset_full(s);
    }
}

/// Scanning a text yields tokens that cover its bytes exactly, in order and without gaps:
/// the first starts at byte 0, each ends where the next starts, each but the last is a
/// non-empty, non-`Eof` token, and the last is `Eof` with the empty span at the text's end.
pub proof fn law_tokens_tile_text(s: Seq<char>)
    requires
        offset(s, s.len() as int) <= usize::MAX,
    ensures
        ({
            let n = offset(s, s.len() as int) as usize;
            let ts = tokenize(s, 0, n);
            &&& ts.len() >= 1
            &&& ts[0].span.start == 0
            &&& ts.last() == tok(SpecRawTokenKind::Eof, Span { start: n, end: n })
            &&& forall|k: int| 0 <= k < ts.len() - 1 ==> {
                &&& !(#[trigger] ts[k].kind is Eof)
                &&& ts[k].span.start < ts[k].span.end
                &&& ts[k].span.end == ts[k + 1].span.start
            }
        }),
{
    lemma_tokenize_tiles(s, 0);
    lemma_offset_zero(s);
}

/// Scanning from index `i` yields at least one token and at most one per character left
/// plus the final `Eof`.
pub proof fn lemma_token_count(s: Seq<char>, i: int, source_len: usize)
    requires
        0 <= i <= s.len(),
    ensures
        1 <= tokenize(s, i, source_len).len() <= s.len() - i + 1,
    decreases s.len() - i,
{
    if i < s.len() {
        lemma_next_token_bounds(s, i, source_len);
        lemma_token_count(s, next_token_spec(s, i, source_len).1, source_len);
    }
}

/// Scanning a text of `m` characters yields between 1 and `m + 1` tokens, the successive
/// results of [next_token_spec] from the start; only the last is `Eof`.
pub proof fn law_token_count(s: Seq<char>)
    requires
        offset(s, s.len() as int) <= usize::MAX,
    ensures
        ({
            let n = offset(s, s.len() as int) as usize;
            let ts = tokenize(s, 0, n);
            &&& 1 <= ts.len() <= s.len() + 1
            &&& ts.last().kind is Eof
            &&& forall|k: int| 0 <= k < ts.len() - 1 ==> !(#[trigger] ts[k].kind is Eof)
        }),
{
    let n = offset(s, s.len() as int) as usize;
    lemma_token_count(s, 0, n);
    lemma_tokenize_tiles(s, 0);
}

/* UTF-8 byte offsets */

pub proof fn lemma_encode_utf8_add(a: Seq<char>, b: Seq<char>)
    ensures
        encode_utf8(a + b) == encode_utf8(a) + encode_utf8(b),
    decreases a.len(),
{
    if a.len() == 0 {
        assert(a + b =~= b);
        assert(encode_utf8(a) =~= Seq::<u8>::empty());
        assert(encode_utf8(a) + encode_utf8(b) =~= encode_utf8(b));
    } else {
        assert((a + b)[0] == a[0]);
        assert((a + b).drop_first() =~= a.drop_first() + b);
        lemma_encode_utf8_add(a.drop_first(), b);
        assert(encode_utf8(a + b) =~= encode_utf8(a) + encode_utf8(b));
    }
}

pub proof fn lemma_width(c: char)
    ensures
        1 <= width(c) <= 4,
        width(c) == 1 <==> is_ascii_spec(c),
{
    vstd::utf8::char_is_scalar(c);
}

pub proof fn lemma_offset_step(s: Seq<char>, i: int)
    requires
        0 <= i < s.len(),
    ensures
        offset(s, i + 1) == offset(s, i) + width(s[i]),
{
    assert(s.take(i + 1) =~= s.take(i) + seq![s[i]]);
    lemma_encode_utf8_add(s.take(i), seq![s[i]]);
    let one = seq![s[i]];
    assert(one.drop_first() =~= Seq::<char>::empty());
    assert(encode_utf8(one) =~= encode_scalar(s[i] as u32) + encode_utf8(Seq::<char>::empty()));
    assert(encode_utf8(Seq::<char>::empty()) =~= Seq::<u8>::empty());
}

pub proof fn lemma_offset_zero(s: Seq<char>)
    ensures
        offset(s, 0) == 0,
{
    assert(s.take(0) =~= Seq::<char>::empty());
}

pub proof fn lemma_offset_full(s: Seq<char>)
    ensures
        offset(s, s.len() as int) == encode_utf8(s).len(),
{
    assert(s.take(s.len() as int) =~= s);
}

pub proof fn lemma_offset_mono(s: Seq<char>, i: int, j: int)
    requires
        0 <= i <= j <= s.len(),
    ensures
        offset(s, i) <= offset(s, j),
        offset(s, i) + (j - i) <= offset(s, j),
    decreases j - i,
{
    if i < j {
        lemma_offset_mono(s, i, j - 1);
        lemma_offset_step(s, j - 1);
        lemma_width(s[j - 1]);
    }
}

} // verus!
