use std::collections::VecDeque;
use vstd::prelude::*;
use vstd::std_specs::convert::IntoSpec;

use crate::span::Span;

verus! {

/// A queue of [RawToken]s, consumed from the front.
pub struct RawTokenStream(VecDeque<RawToken>);

/// The tokens that `k` calls of [RawTokenStream::consume] on a stream holding `v` give
/// back, and what the stream holds afterwards: a call on an empty stream gives nothing.
pub open spec fn consumed(v: Seq<SpecRawToken>, k: nat) -> (Seq<SpecRawToken>, Seq<SpecRawToken>)
    decreases k,
{
    if k == 0 {
        (Seq::empty(), v)
    } else {
        let prev = consumed(v, (k - 1) as nat);
        if prev.1.len() == 0 {
            prev
        } else {
            (prev.0.push(prev.1[0]), prev.1.drop_first())
        }
    }
}

/// `k` consumes give back the first `k` tokens in order and leave the rest; past the end
/// they give back every token and leave nothing.
pub proof fn law_consumes_in_order(v: Seq<SpecRawToken>, k: nat)
    ensures
        k <= v.len() ==> consumed(v, k) == (v.take(k as int), v.skip(k as int)),
        k > v.len() ==> consumed(v, k) == (v, Seq::<SpecRawToken>::empty()),
    decreases k,
{
    if k == 0 {
        assert(v.take(0) =~= Seq::<SpecRawToken>::empty());
        assert(v.skip(0) =~= v);
    } else {
        law_consumes_in_order(v, (k - 1) as nat);
        if k <= v.len() {
            assert(v.take(k - 1).push(v.skip(k - 1)[0]) =~= v.take(k as int));
            assert(v.skip(k - 1).drop_first() =~= v.skip(k as int));
        } else if k - 1 == v.len() {
            assert(v.take(k - 1) =~= v);
            assert(v.skip(k - 1) =~= Seq::<SpecRawToken>::empty());
        }
    }
}

impl View for RawTokenStream {
    type V = Seq<SpecRawToken>;

    closed spec fn view(&self) -> Seq<SpecRawToken> {
        self.0@.map_values(|t: RawToken| t@)
    }
}

impl RawTokenStream {
    /// A stream that yields `tokens` in order.
    pub fn new(tokens: Vec<RawToken>) -> (r: Self)
        ensures
            r@ == tokens@.map_values(|t: RawToken| t@),
    {
        let mut queue: VecDeque<RawToken> = VecDeque::new();
        let mut tokens = tokens;
        let ghost all = tokens@;
        // Move the tokens over back to front, keeping their order.
        while tokens.len() > 0
            invariant
                tokens@ + queue@ == all,
            decreases tokens.len(),
        {
            let t = tokens.pop().unwrap();
            queue.push_front(t);
            assert(tokens@ + queue@ =~= all);
        }
        assert(queue@ =~= all);
        RawTokenStream(queue)
    }

    /// Removes and returns the first token, if any.
    pub fn consume(&mut self) -> (r: Option<RawToken>)
        ensures
            old(self)@.len() == 0 ==> r is None && final(self)@ == old(self)@,
            old(self)@.len() > 0 ==> r is Some && r->0@ == old(self)@[0] && final(self)@
                == old(self)@.drop_first(),
    {
        let r = self.0.pop_front();
        proof {
            if old(self)@.len() > 0 {
                assert(self@ =~= old(self)@.drop_first());
            }
        }
        r
    }

    /// The first token, if any, without removing it.
    pub fn peek(&self) -> (r: Option<&RawToken>)
        ensures
            self@.len() == 0 ==> r is None,
            self@.len() > 0 ==> r is Some && r->0@ == self@[0],
    {
        if self.0.len() > 0 {
            Some(&self.0[0])
        } else {
            None
        }
    }
}

/// A token with its kind and location, but without any further data.
#[derive(Debug, Clone)]
pub struct RawToken {
    /// The kind of token. Contains data.
    pub kind: RawTokenKind,
    /// The bounds of the token in the source code.
    pub span: Span,
}

/// A segment of an interpolated string literal.
#[derive(Debug, Clone, Copy, PartialEq, Eq, Structural)]
pub enum InplSegment {
    /// Plain text, including `{{` and `}}` escapes.
    Text { span: Span },
    /// A `{name}` variable reference; `span` covers the name.
    Var { span: Span, invalid: bool, terminated: bool },
    /// A lone `}`.
    InvalidClosing(Span),
}

/// The kind of a raw token.
#[derive(Debug, Clone, PartialEq)]
pub enum RawTokenKind {
    /// Any sequence of whitespace characters. This token is usually skipped.
    Whitespace,
    /// A comment. This token is usually skipped.
    Comment,
    /// An identifier or keyword.
    Ident,
    /// An invalid identifier.
    InvalidIdent,
    /// A literal.
    Literal { kind: LiteralKind },
    /// ;
    Semi,
    /// :
    Colon,
    /// +
    Plus,
    /// -
    Minus,
    /// =
    Equals,
    /// (
    OpenParen,
    /// )
    CloseParen,
    /// {
    OpenBrace,
    /// }
    CloseBrace,
    /// <
    Lt,
    /// >
    Gt,
    /// ,
    Comma,
    /// !
    Exclamation,
    /// /
    Slash,
    /// %
    Percentage,
    /// *
    Asterisk,
    /// An unknown token.
    Unknown,
    /// The end of the input.
    Eof,
}

/// The kind of a literal token.
#[derive(Debug, Clone, PartialEq)]
pub enum LiteralKind {
    /// "abc" or "abc
    Str { terminated: bool },
    /// 12345, 00491
    Integer { data_span: Span },
    /// `abc {name} def`
    InterpolatedStr { terminated: bool, segments: Vec<InplSegment> },
}

/// The mathematical form of a [LiteralKind].
pub enum SpecLiteralKind {
    Str { terminated: bool },
    Integer { data_span: Span },
    InterpolatedStr { terminated: bool, segments: Seq<InplSegment> },
}

/// The mathematical form of a [RawTokenKind].
pub enum SpecRawTokenKind {
    Whitespace,
    Comment,
    Ident,
    InvalidIdent,
    Literal { kind: SpecLiteralKind },
    Semi,
    Colon,
    Plus,
    Minus,
    Equals,
    OpenParen,
    CloseParen,
    OpenBrace,
    CloseBrace,
    Lt,
    Gt,
    Comma,
    Exclamation,
    Slash,
    Percentage,
    Asterisk,
    Unknown,
    Eof,
}

/// The mathematical form of a [RawToken].
pub struct SpecRawToken {
    pub kind: SpecRawTokenKind,
    pub span: Span,
}

impl View for LiteralKind {
    type V = SpecLiteralKind;

    open spec fn view(&self) -> SpecLiteralKind {
        match self {
            LiteralKind::Str { terminated } => SpecLiteralKind::Str { terminated: *terminated },
            LiteralKind::Integer { data_span } => SpecLiteralKind::Integer { data_span: *data_span },
            LiteralKind::InterpolatedStr { terminated, segments } => SpecLiteralKind::InterpolatedStr {
                terminated: *terminated,
                segments: segments@,
            },
        }
    }
}

impl View for RawTokenKind {
    type V = SpecRawTokenKind;

    open spec fn view(&self) -> SpecRawTokenKind {
        match self {
            RawTokenKind::Whitespace => SpecRawTokenKind::Whitespace,
            RawTokenKind::Comment => SpecRawTokenKind::Comment,
            RawTokenKind::Ident => SpecRawTokenKind::Ident,
            RawTokenKind::InvalidIdent => SpecRawTokenKind::InvalidIdent,
            RawTokenKind::Literal { kind } => SpecRawTokenKind::Literal { kind: kind@ },
            RawTokenKind::Semi => SpecRawTokenKind::Semi,
            RawTokenKind::Colon => SpecRawTokenKind::Colon,
            RawTokenKind::Plus => SpecRawTokenKind::Plus,
            RawTokenKind::Minus => SpecRawTokenKind::Minus,
            RawTokenKind::Equals => SpecRawTokenKind::Equals,
            RawTokenKind::OpenParen => SpecRawTokenKind::OpenParen,
            RawTokenKind::CloseParen => SpecRawTokenKind::CloseParen,
            RawTokenKind::OpenBrace => SpecRawTokenKind::OpenBrace,
            RawTokenKind::CloseBrace => SpecRawTokenKind::CloseBrace,
            RawTokenKind::Lt => SpecRawTokenKind::Lt,
            RawTokenKind::Gt => SpecRawTokenKind::Gt,
            RawTokenKind::Comma => SpecRawTokenKind::Comma,
            RawTokenKind::Exclamation => SpecRawTokenKind::Exclamation,
            RawTokenKind::Slash => SpecRawTokenKind::Slash,
            RawTokenKind::Percentage => SpecRawTokenKind::Percentage,
            RawTokenKind::Asterisk => SpecRawTokenKind::Asterisk,
            RawTokenKind::Unknown => SpecRawTokenKind::Unknown,
            RawTokenKind::Eof => SpecRawTokenKind::Eof,
        }
    }
}

impl View for RawToken {
    type V = SpecRawToken;

    open spec fn view(&self) -> SpecRawToken {
        SpecRawToken { kind: self.kind@, span: self.span }
    }
}

impl RawToken {
    /// Creates a new [RawToken] with the given [RawTokenKind] and [Span].
    pub fn new<S: Into<Span>>(kind: RawTokenKind, span: S) -> (r: Self)
        ensures
            r.kind == kind,
            <S as IntoSpec<Span>>::obeys_into_spec() ==> r.span == span.into_spec(),
    {
        RawToken { kind, span: span.into() }
    }

    /// Whether this is the end-of-input token.
    #[inline]
    pub fn is_eof(&self) -> (r: bool)
        ensures
            r == (self.kind@ is Eof),
    {
        matches!(self.kind, RawTokenKind::Eof)
    }

    /// Whether this is a whitespace token.
    #[inline]
    pub fn is_whitespace(&self) -> (r: bool)
        ensures
            r == (self.kind@ is Whitespace),
    {
        matches!(self.kind, RawTokenKind::Whitespace)
    }
}

} // verus!
