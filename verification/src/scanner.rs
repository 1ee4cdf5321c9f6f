use vstd::prelude::*;
use vstd::string::StringSliceAdditionalSpecFns;

use crate::predicate::{
    is_whitespace, is_ascii, is_ascii_digit, is_ident_continue, is_ident_start,
    unicode_is_emoji, non_ascii_emoji, ident_continue,
};
use crate::raw_token::{
    InplSegment, LiteralKind, RawToken, RawTokenKind, RawTokenStream, SpecRawToken,
    SpecRawTokenKind,
};
use crate::scan_spec::{
    block_end, continue_pred, digit_pred, ident_end, interp, interp_step, invalid_ident_pred,
    lemma_ident_end_bounds, lemma_interp_step_bounds, lemma_next_token_bounds, lemma_offset_full,
    lemma_offset_mono, lemma_offset_step, lemma_offset_zero, lemma_skip_while_bounds, lemma_width,
    line_end, next_token_spec, offset, ofs, skip_while, string_end, text_end, width, ws_pred,
    tokenize, lemma_token_span, lemma_tokenize_unfold, law_token_count, law_tokens_tile_text, tok,
};
use crate::span::Span;

verus! {

/// Transforms the input source code to a stream of [RawToken]s.
/// These are basically normal tokens that only contain the token kind and location, no additional data.
pub struct Scanner {
    chars: Vec<char>,
    index: usize,
    position: usize,
    source_len: usize,
}

/// The number of bytes in the UTF-8 encoding of `c` (`char::len_utf8`).
fn len_utf8(c: char) -> (r: usize)
    ensures
        r == width(c),
{
    proof {
        vstd::utf8::char_is_scalar(c);
    }
    let u = c as u32;
    if u < 0x80 {
        1
    } else if u < 0x800 {
        2
    } else if u < 0x10000 {
        3
    } else {
        4
    }
}

/// Characters that an identifier holding a non-ASCII emoji is made of.
fn is_invalid_ident_char(c: char) -> (r: bool)
    ensures
        r == (ident_continue(c) || non_ascii_emoji(c)),
{
    is_ident_continue(c) || (!is_ascii(c) && unicode_is_emoji(c))
}

impl Scanner {
    /// The characters of the source text.
    pub closed spec fn text(&self) -> Seq<char> {
        self.chars@
    }

    /// The index of the next character to scan.
    pub closed spec fn cursor(&self) -> int {
        self.index as int
    }

    /// The byte offset of the next character to scan.
    pub closed spec fn byte_position(&self) -> usize {
        self.position
    }

    /// The byte length of the source text.
    pub closed spec fn source_len(&self) -> usize {
        self.source_len
    }

    /// The scanner's position agrees with the UTF-8 encoding of its text.
    pub open spec fn wf(&self) -> bool {
        &&& 0 <= self.cursor() <= self.text().len()
        &&& self.byte_position() == offset(self.text(), self.cursor())
        &&& self.source_len() == offset(self.text(), self.text().len() as int)
    }

    /// `next` is `prev` moved on to character index `to`, over the same text.
    pub open spec fn moved(prev: Scanner, next: Scanner, to: int) -> bool {
        &&& next.wf()
        &&& next.text() == prev.text()
        &&& next.source_len() == prev.source_len()
        &&& next.cursor() == to
    }

    /// A scanner at the start of `source`.
    pub fn new(source: &str) -> (r: Self)
        ensures
            r.wf(),
            r.text() == source@,
            r.cursor() == 0,
            r.source_len() == source.spec_bytes().len(),
    {
        let bytes = source.as_bytes();
        assert(bytes@.len() == bytes.len());
        let mut chars: Vec<char> = Vec::new();
        for c in iter: source.chars()
            invariant
                chars@ == iter.seq().take(iter.index() as int),
        {
            proof {
                assert(iter.seq().take(iter.index() + 1) =~= iter.seq().take(iter.index() as int).push(c));
            }
            chars.push(c);
        }
        proof {
            broadcast use vstd::string::group_string_axioms;
            assert(chars@ =~= source@);
            lemma_offset_zero(chars@);
            lemma_offset_full(chars@);
        }
        Scanner { chars, index: 0, position: 0, source_len: source.len() }
    }

    /// Consumes and returns the next character, if any.
    pub(crate) fn bump(&mut self) -> (r: Option<char>)
        requires
            old(self).wf(),
        ensures
            old(self).cursor() < old(self).text().len() ==> r == Some(old(self).text()[old(self).cursor()])
                && Self::moved(*old(self), *final(self), old(self).cursor() + 1),
            old(self).cursor() >= old(self).text().len() ==> r is None && Self::moved(*old(self), *final(self), old(self).cursor()),
    {
        if self.index < self.chars.len() {
            let c = self.chars[self.index];
            proof {
                lemma_offset_step(self.chars@, self.index as int);
                lemma_offset_mono(self.chars@, self.index + 1, self.chars@.len() as int);
            }
            self.index = self.index + 1;
            self.position = self.position + len_utf8(c);
            Some(c)
        } else {
            None
        }
    }

    /// Consumes characters while `predicate` holds of the next one.
    pub(crate) fn eat_while<F: Fn(char) -> bool>(&mut self, predicate: F, Ghost(p): Ghost<spec_fn(char) -> bool>)
        requires
            old(self).wf(),
            forall|c: char| call_requires(predicate, (c,)),
            forall|c: char, r: bool| call_ensures(predicate, (c,), r) ==> r == p(c),
        ensures
            Self::moved(*old(self), *final(self), skip_while(old(self).text(), old(self).cursor(), p)),
    {
        let ghost start = self.cursor();
        loop
            invariant
                Self::moved(*old(self), *self, self.cursor()),
                skip_while(self.text(), self.cursor(), p) == skip_while(self.text(), start, p),
                start == old(self).cursor(),
                forall|c: char| call_requires(predicate, (c,)),
                forall|c: char, r: bool| call_ensures(predicate, (c,), r) ==> r == p(c),
            decreases self.text().len() - self.cursor(),
        {
            match self.first() {
                Some(current) => {
                    if predicate(current) {
                        self.bump();
                    } else {
                        return;
                    }
                },
                None => {
                    return;
                },
            }
        }
    }


    /// The offset just after a consumed character is at least 1.
    proof fn lemma_position_positive(&self)
        requires
            self.wf(),
            self.cursor() >= 1,
        ensures
            self.byte_position() >= self.cursor(),
    {
        lemma_offset_zero(self.text());
        lemma_offset_mono(self.text(), 0, self.cursor());
    }

    /// A run of whitespace whose first character, at byte `start`, was just consumed.
    pub(crate) fn whitespace(&mut self, start: usize) -> (r: RawToken)
        requires
            old(self).wf(),
            old(self).cursor() >= 1,
            start as int == offset(old(self).text(), old(self).cursor() - 1),
        ensures
            Self::moved(*old(self), *final(self), skip_while(old(self).text(), old(self).cursor(), ws_pred())),
            r@ == (SpecRawToken {
                kind: SpecRawTokenKind::Whitespace,
                span: Span { start, end: final(self).byte_position() },
            }),
    {
        self.eat_while(
            is_whitespace,
            Ghost(ws_pred()),
        );
        RawToken::new(RawTokenKind::Whitespace, (start, self.position))
    }

    /// An identifier whose characters from the cursor on continue the one that starts at
    /// byte `start`.
    pub(crate) fn ident(&mut self, start: usize) -> (r: RawToken)
        requires
            old(self).wf(),
        ensures
            Self::moved(*old(self), *final(self), ident_end(old(self).text(), old(self).cursor()).0),
            r@ == (SpecRawToken {
                kind: if ident_end(old(self).text(), old(self).cursor()).1 {
                    SpecRawTokenKind::InvalidIdent
                } else {
                    SpecRawTokenKind::Ident
                },
                span: Span { start, end: final(self).byte_position() },
            }),
    {
        self.eat_while(
            is_ident_continue,
            Ghost(continue_pred()),
        );
        proof {
            lemma_skip_while_bounds(self.text(), old(self).cursor(), continue_pred());
        }
        match self.first() {
            Some(c) => {
                if !is_ascii(c) && unicode_is_emoji(c) {
                    return self.invalid_ident(start);
                }
            },
            None => {},
        }
        RawToken::new(RawTokenKind::Ident, (start, self.position))
    }

    /// The rest of an identifier that holds a non-ASCII emoji.
    pub(crate) fn invalid_ident(&mut self, ident_start: usize) -> (r: RawToken)
        requires
            old(self).wf(),
        ensures
            Self::moved(*old(self), *final(self), skip_while(old(self).text(), old(self).cursor(), invalid_ident_pred())),
            r@ == (SpecRawToken {
                kind: SpecRawTokenKind::InvalidIdent,
                span: Span { start: ident_start, end: final(self).byte_position() },
            }),
    {
        self.eat_while(
            is_invalid_ident_char,
            Ghost(invalid_ident_pred()),
        );
        RawToken::new(RawTokenKind::InvalidIdent, (ident_start, self.position))
    }

    /// An integer literal whose first digit, at byte `start`, was just consumed.
    pub(crate) fn integer(&mut self, start: usize) -> (r: RawToken)
        requires
            old(self).wf(),
            old(self).cursor() >= 1,
            start as int == offset(old(self).text(), old(self).cursor() - 1),
        ensures
            Self::moved(*old(self), *final(self), skip_while(old(self).text(), old(self).cursor(), digit_pred())),
            r@ == ({
                let data_span = Span { start, end: final(self).byte_position() };
                SpecRawToken {
                    kind: SpecRawTokenKind::Literal { kind: crate::raw_token::SpecLiteralKind::Integer { data_span } },
                    span: data_span,
                }
            }),
    {
        self.eat_while(
            is_ascii_digit,
            Ghost(digit_pred()),
        );
        let data_span = Span::from(start..self.position);
        RawToken { kind: RawTokenKind::Literal { kind: LiteralKind::Integer { data_span } }, span: data_span }
    }

    /// A string literal whose opening quote, at byte `start`, was just consumed.
    pub(crate) fn string(&mut self, start: usize) -> (r: RawToken)
        requires
            old(self).wf(),
            old(self).cursor() >= 1,
            start as int == offset(old(self).text(), old(self).cursor() - 1),
        ensures
            Self::moved(*old(self), *final(self), string_end(old(self).text(), old(self).cursor()).0),
            r@ == (SpecRawToken {
                kind: SpecRawTokenKind::Literal {
                    kind: crate::raw_token::SpecLiteralKind::Str { terminated: string_end(old(self).text(), old(self).cursor()).1 },
                },
                span: Span { start, end: final(self).byte_position() },
            }),
    {
        let terminated = self.string_until_termination();
        RawToken::new(RawTokenKind::Literal { kind: LiteralKind::Str { terminated } }, (start, self.position))
    }

    /// Consumes the body of a string literal up to and including its closing quote;
    /// returns whether that quote was found.
    pub(crate) fn string_until_termination(&mut self) -> (r: bool)
        requires
            old(self).wf(),
        ensures
            Self::moved(*old(self), *final(self), string_end(old(self).text(), old(self).cursor()).0),
            r == string_end(old(self).text(), old(self).cursor()).1,
    {
        let ghost s = self.text();
        let ghost start = self.cursor();
        loop
            invariant
                Self::moved(*old(self), *self, self.cursor()),
                s == self.text(),
                start == old(self).cursor(),
                string_end(s, self.cursor()) == string_end(s, start),
            decreases s.len() - self.cursor(),
        {
            match self.bump() {
                None => {
                    return false;
                },
                Some(c) => {
                    if c == '"' {
                        return true;
                    } else if c == '\\' && (self.first() == Some('\\') || self.first() == Some('"')) {
                        self.bump();
                    }
                },
            }
        }
    }


    /// A text segment of an interpolated string that starts at byte `start`.
    pub(crate) fn inpl_text(&mut self, start: usize) -> (r: InplSegment)
        requires
            old(self).wf(),
        ensures
            Self::moved(*old(self), *final(self), text_end(old(self).text(), old(self).cursor())),
            r == (InplSegment::Text { span: Span { start, end: final(self).byte_position() } }),
    {
        let ghost s = self.text();
        let ghost begin = self.cursor();
        loop
            invariant_except_break
                Self::moved(*old(self), *self, self.cursor()),
                s == self.text(),
                begin == old(self).cursor(),
                text_end(s, self.cursor()) == text_end(s, begin),
            ensures
                Self::moved(*old(self), *self, text_end(s, begin)),
            decreases s.len() - self.cursor(),
        {
            match self.first() {
                None => {
                    break;
                },
                Some(c) => {
                    if c == '`' || c == '{' {
                        break;
                    } else if c == '\\' {
                        self.bump();
                        self.bump();
                    } else {
                        self.bump();
                    }
                },
            }
        }
        InplSegment::Text { span: Span::from((start, self.position)) }
    }

    /// A `{name}` variable of an interpolated string whose `{` was just consumed.
    pub(crate) fn inpl_var(&mut self) -> (r: InplSegment)
        requires
            old(self).wf(),
        ensures
            ({
                let s = old(self).text();
                let j = old(self).cursor();
                let (e, invalid) = ident_end(s, j);
                let terminated = e < s.len() && s[e] == '}';
                &&& Self::moved(*old(self), *final(self), if terminated { e + 1 } else { e })
                &&& r == InplSegment::Var { span: Span { start: ofs(s, j), end: ofs(s, e) }, invalid, terminated }
            }),
    {
        let token = self.ident(self.position);
        let ghost e = self.cursor();
        let invalid = match token.kind {
            RawTokenKind::InvalidIdent => true,
            _ => false,
        };
        let terminated = match self.first() {
            Some(c) => {
                if c == '}' {
                    self.bump();
                    true
                } else {
                    false
                }
            },
            None => false,
        };
        proof {
            lemma_ident_end_bounds(old(self).text(), old(self).cursor());
        }
        InplSegment::Var { span: token.span, invalid, terminated }
    }

    /// An interpolated string whose opening backtick, at byte `start`, was just consumed.
    pub(crate) fn interpolated_string(&mut self, start: usize) -> (r: RawToken)
        requires
            old(self).wf(),
            old(self).cursor() >= 1,
            start as int == offset(old(self).text(), old(self).cursor() - 1),
        ensures
            Self::moved(*old(self), *final(self), interp(old(self).text(), old(self).cursor()).2),
            r@ == (SpecRawToken {
                kind: SpecRawTokenKind::Literal {
                    kind: crate::raw_token::SpecLiteralKind::InterpolatedStr {
                        terminated: interp(old(self).text(), old(self).cursor()).1,
                        segments: interp(old(self).text(), old(self).cursor()).0,
                    },
                },
                span: Span { start, end: final(self).byte_position() },
            }),
    {
        let ghost s = self.text();
        let ghost j0 = self.cursor();
        let mut terminated = false;
        let mut segments: Vec<InplSegment> = Vec::new();
        loop
            invariant_except_break
                Self::moved(*old(self), *self, self.cursor()),
                s == self.text(),
                j0 == old(self).cursor(),
                self.cursor() >= 1,
                !terminated,
                segments@ + interp(s, self.cursor()).0 == interp(s, j0).0,
                interp(s, self.cursor()).1 == interp(s, j0).1,
                interp(s, self.cursor()).2 == interp(s, j0).2,
            ensures
                Self::moved(*old(self), *self, interp(s, j0).2),
                s == self.text(),
                segments@ == interp(s, j0).0,
                terminated == interp(s, j0).1,
            decreases s.len() - self.cursor(),
        {
            let ghost i = self.cursor();
            proof {
                if i < s.len() {
                    lemma_interp_step_bounds(s, i);
                    lemma_offset_step(s, i);
                    lemma_width(s[i]);
                    if i + 1 < s.len() {
                        lemma_offset_step(s, i + 1);
                        lemma_width(s[i + 1]);
                    }
                    self.lemma_position_positive();
                }
            }
            let before = self.position;
            match self.bump() {
                None => {
                    assert(interp(s, i).0 =~= Seq::<InplSegment>::empty());
                    assert(segments@ =~= segments@ + interp(s, i).0);
                    break;
                },
                Some(c) => {
                    let ghost step = interp_step(s, i);
                    if c == '`' {
                        terminated = true;
                        assert(segments@ =~= segments@ + interp(s, i).0);
                        break;
                    } else if c == '{' && matches!(self.first(), Some('{')) {
                        self.bump();
                        let seg = self.inpl_text(before);
                        segments.push(seg);
                    } else if c == '{' {
                        let seg = self.inpl_var();
                        segments.push(seg);
                    } else if c == '}' && matches!(self.first(), Some('}')) {
                        self.bump();
                        let seg = self.inpl_text(before);
                        segments.push(seg);
                    } else if c == '}' {
                        segments.push(InplSegment::InvalidClosing(Span::from((before, self.position))));
                    } else {
                        let seg = self.inpl_text(before);
                        segments.push(seg);
                    }
                    proof {
                        assert(step.0 == Some(segments@.last()));
                        assert(self.cursor() == step.1);
                        let rest = interp(s, step.1);
                        assert(interp(s, i).0 == seq![segments@.last()] + rest.0);
                        assert(segments@ + rest.0 =~= segments@.drop_last() + interp(s, i).0);
                    }
                },
            }
        }
        RawToken::new(
            RawTokenKind::Literal { kind: LiteralKind::InterpolatedStr { terminated, segments } },
            (start, self.position),
        )
    }

    /// A one-character token whose character, at byte `start`, was just consumed.
    pub(crate) fn single(&self, kind: RawTokenKind, start: usize) -> (r: RawToken)
        requires
            self.wf(),
            self.cursor() >= 1,
            start as int == offset(self.text(), self.cursor() - 1),
        ensures
            r.kind == kind,
            r.span == (Span { start, end: self.byte_position() }),
    {
        RawToken::new(kind, (start, self.position))
    }

    /// A line comment whose first slash, at byte `start`, was just consumed and whose second
    /// slash is next.
    pub(crate) fn comment(&mut self, start: usize) -> (r: RawToken)
        requires
            old(self).wf(),
            1 <= old(self).cursor() < old(self).text().len(),
            start as int == offset(old(self).text(), old(self).cursor() - 1),
        ensures
            Self::moved(*old(self), *final(self), line_end(old(self).text(), old(self).cursor() + 1)),
            r@ == (SpecRawToken {
                kind: SpecRawTokenKind::Comment,
                span: Span { start, end: final(self).byte_position() },
            }),
    {
        let ghost s = self.text();
        self.bump();
        let ghost begin = self.cursor();
        loop
            invariant_except_break
                Self::moved(*old(self), *self, self.cursor()),
                s == self.text(),
                begin == old(self).cursor() + 1,
                line_end(s, self.cursor()) == line_end(s, begin),
            ensures
                Self::moved(*old(self), *self, line_end(s, begin)),
            decreases s.len() - self.cursor(),
        {
            let ghost i = self.cursor();
            match self.bump() {
                None => {
                    break;
                },
                Some(c) => {
                    if c == '\n' {
                        break;
                    }
                },
            }
        }
        RawToken::new(RawTokenKind::Comment, (start, self.position))
    }


    /// A block comment whose slash, at byte `start`, was just consumed and whose asterisk is
    /// next.
    pub(crate) fn multiline_comment(&mut self, start: usize) -> (r: RawToken)
        requires
            old(self).wf(),
            1 <= old(self).cursor() < old(self).text().len(),
            start as int == offset(old(self).text(), old(self).cursor() - 1),
        ensures
            Self::moved(*old(self), *final(self), block_end(old(self).text(), old(self).cursor() + 1)),
            r@ == (SpecRawToken {
                kind: SpecRawTokenKind::Comment,
                span: Span { start, end: final(self).byte_position() },
            }),
    {
        let ghost s = self.text();
        self.bump();
        let ghost begin = self.cursor();
        loop
            invariant_except_break
                Self::moved(*old(self), *self, self.cursor()),
                s == self.text(),
                begin == old(self).cursor() + 1,
                block_end(s, self.cursor()) == block_end(s, begin),
            ensures
                Self::moved(*old(self), *self, block_end(s, begin)),
            decreases s.len() - self.cursor(),
        {
            match self.bump() {
                None => {
                    break;
                },
                Some(c) => {
                    if c == '*' && matches!(self.first(), Some('/')) {
                        self.bump();
                        break;
                    }
                },
            }
        }
        RawToken::new(RawTokenKind::Comment, (start, self.position))
    }

    /// Scans the next token. At the end of the input this is `Eof`, with the empty span at
    /// the source's byte length, and the scanner stays where it is.
    pub fn next_token(&mut self) -> (r: RawToken)
        requires
            old(self).wf(),
        ensures
            ({
                let (t, e) = next_token_spec(old(self).text(), old(self).cursor(), old(self).source_len());
                &&& r@ == t
                &&& Self::moved(*old(self), *final(self), e)
            }),
    {
        let ghost s = self.text();
        let ghost i = self.cursor();
        proof {
            if i < s.len() {
                lemma_offset_step(s, i);
                lemma_width(s[i]);
            }
        }
        let start = self.position;
        let first_char = match self.bump() {
            Some(c) => c,
            None => {
                return RawToken::new(RawTokenKind::Eof, self.source_len);
            },
        };
        if is_whitespace(first_char) {
            self.whitespace(start)
        } else if is_ident_start(first_char) {
            self.ident(start)
        } else if first_char == '/' && matches!(self.first(), Some('/')) {
            self.comment(start)
        } else if first_char == '/' && matches!(self.first(), Some('*')) {
            self.multiline_comment(start)
        } else if first_char == ';' {
            self.single(RawTokenKind::Semi, start)
        } else if first_char == ':' {
            self.single(RawTokenKind::Colon, start)
        } else if first_char == '+' {
            self.single(RawTokenKind::Plus, start)
        } else if first_char == '-' {
            self.single(RawTokenKind::Minus, start)
        } else if first_char == '=' {
            self.single(RawTokenKind::Equals, start)
        } else if first_char == '(' {
            self.single(RawTokenKind::OpenParen, start)
        } else if first_char == ')' {
            self.single(RawTokenKind::CloseParen, start)
        } else if first_char == '{' {
            self.single(RawTokenKind::OpenBrace, start)
        } else if first_char == '}' {
            self.single(RawTokenKind::CloseBrace, start)
        } else if first_char == '<' {
            self.single(RawTokenKind::Lt, start)
        } else if first_char == '>' {
            self.single(RawTokenKind::Gt, start)
        } else if first_char == ',' {
            self.single(RawTokenKind::Comma, start)
        } else if first_char == '!' {
            self.single(RawTokenKind::Exclamation, start)
        } else if first_char == '/' {
            self.single(RawTokenKind::Slash, start)
        } else if first_char == '%' {
            self.single(RawTokenKind::Percentage, start)
        } else if first_char == '*' {
            self.single(RawTokenKind::Asterisk, start)
        } else if first_char == '"' {
            self.string(start)
        } else if first_char == '`' {
            self.interpolated_string(start)
        } else if is_ascii_digit(first_char) {
            self.integer(start)
        } else {
            RawToken::new(RawTokenKind::Unknown, (start, self.position))
        }
    }

    /// The next character, without consuming it.
    pub fn first(&self) -> (r: Option<char>)
        requires
            self.wf(),
        ensures
            r == if self.cursor() < self.text().len() { Some(self.text()[self.cursor()]) } else { None::<char> },
    {
        if self.index < self.chars.len() {
            Some(self.chars[self.index])
        } else {
            None
        }
    }

    /// The character after the next one, without consuming anything.
    pub fn second(&self) -> (r: Option<char>)
        requires
            self.wf(),
        ensures
            r == if self.cursor() + 1 < self.text().len() { Some(self.text()[self.cursor() + 1]) } else { None::<char> },
    {
        if self.chars.len() - self.index > 1 {
            Some(self.chars[self.index + 1])
        } else {
            None
        }
    }

    /// The third character from the cursor, without consuming anything.
    pub fn third(&self) -> (r: Option<char>)
        requires
            self.wf(),
        ensures
            r == if self.cursor() + 2 < self.text().len() { Some(self.text()[self.cursor() + 2]) } else { None::<char> },
    {
        if self.chars.len() - self.index > 2 {
            Some(self.chars[self.index + 2])
        } else {
            None
        }
    }
}

impl RawTokenStream {
    /// Runs the scanner to the end of its input: the stream holds every token it yields, up
    /// to and including the first `Eof`.
    #[verifier::rlimit(40)]
    pub fn from_scanner(value: Scanner) -> (r: Self)
        requires
            value.wf(),
        ensures
            r@ == tokenize(value.text(), value.cursor(), value.source_len()),
    {
        let mut value = value;
        let ghost s = value.text();
        let ghost n = value.source_len();
        let ghost c0 = value.cursor();
        let mut tokens: Vec<RawToken> = Vec::new();
        loop
            invariant_except_break
                value.wf(),
                value.text() == s,
                value.source_len() == n,
                tokens@.map_values(|t: RawToken| t@) + tokenize(s, value.cursor(), n) == tokenize(s, c0, n),
            ensures
                tokens@.map_values(|t: RawToken| t@) == tokenize(s, c0, n),
            decreases s.len() - value.cursor(),
        {
            let ghost i = value.cursor();
            let ghost before = tokens@.map_values(|t: RawToken| t@);
            proof {
                if i < s.len() {
                    lemma_offset_mono(s, 0, s.len() as int);
                    lemma_token_span(s, i, n);
                }
                lemma_tokenize_unfold(s, i, n);
                crate::scan_spec::lemma_next_token_bounds(s, i, n);
            }
            let token = value.next_token();
            let is_eof = token.is_eof();
            tokens.push(token);
            proof {
                assert(tokens@.map_values(|t: RawToken| t@) =~= before.push(token@));
                assert(before.push(token@) + tokenize(s, value.cursor(), n) =~= before + (seq![token@] + tokenize(s, value.cursor(), n)));
            }
            if is_eof {
                proof {
                    assert(tokenize(s, i, n) =~= seq![token@]);
                }
                break;
            }
        }
        RawTokenStream::new(tokens)
    }
}

/// The tokens that a scanner at the start of a text yields, one [Scanner::next_token]
/// after the other up to the first `Eof` ([RawTokenStream::from_scanner] collects them),
/// cover the text's bytes exactly: the first starts at byte 0, each ends where the next
/// starts, each but the last is a non-empty, non-`Eof` token, and the last is `Eof` with
/// the empty span at the text's byte length. There are at least one and at most one more
/// than the text has characters. Every scanner built by [Scanner::new] is such a scanner.
pub proof fn law_scanner_tiles_its_text(sc: Scanner)
    requires
        sc.wf(),
        sc.cursor() == 0,
    ensures
        ({
            let n = sc.source_len();
            let ts = tokenize(sc.text(), 0, n);
            &&& 1 <= ts.len() <= sc.text().len() + 1
            &&& ts[0].span.start == 0
            &&& ts.last() == tok(SpecRawTokenKind::Eof, Span { start: n, end: n })
            &&& forall|k: int| 0 <= k < ts.len() - 1 ==> {
                &&& !(#[trigger] ts[k].kind is Eof)
                &&& ts[k].span.start < ts[k].span.end
                &&& ts[k].span.end == ts[k + 1].span.start
            }
        }),
{
    law_tokens_tile_text(sc.text());
    law_token_count(sc.text());
}

} // verus!
