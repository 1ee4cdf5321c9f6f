use vstd::prelude::*;
use vstd::string::StringSliceAdditionalSpecFns;

verus! {

/// A half-open range of byte offsets `[start, end)` into a source text.
#[derive(Clone, Copy, Debug, PartialEq, Eq, Structural)]
pub struct Span {
    /// The start of the span.
    pub start: usize,
    /// The exclusive end of the span.
    ///
    /// Note: A span starting at 0 and ending at 2 would only cover the indices 0 and 1.
    pub end: usize,
}

impl Span {
    /// Converts the byte offsets into a `Range`.
    #[inline]
    pub fn range(&self) -> (r: core::ops::Range<usize>)
        ensures
            r.start == self.start,
            r.end == self.end,
    {
        self.start..self.end
    }

    /// Merges this span with another span: the result starts at the smaller
    /// start and ends at the larger end.
    ///
    /// Example: merging (0..10) with (10..15) gives (0..15).
    #[inline]
    pub fn merge(&mut self, other: Span)
        ensures
            *final(self) == merged(*old(self), other),
    {
        if self.start > other.start {
            self.start = other.start;
        }
        if self.end < other.end {
            self.end = other.end;
        }
    }
}

/// The span from the smaller start of `a` and `b` to their larger end.
pub open spec fn merged(a: Span, b: Span) -> Span {
    Span {
        start: if a.start > b.start { b.start } else { a.start },
        end: if a.end < b.end { b.end } else { a.end },
    }
}

/// Merging covers both spans: it starts no later and ends no earlier than either.
pub proof fn law_merge_covers_both(a: Span, b: Span)
    ensures
        merged(a, b).start <= a.start,
        merged(a, b).start <= b.start,
        merged(a, b).end >= a.end,
        merged(a, b).end >= b.end,
        merged(a, b).start == a.start || merged(a, b).start == b.start,
        merged(a, b).end == a.end || merged(a, b).end == b.end,
{
}

/// The order of merging does not matter: merging is commutative and associative.
pub proof fn law_merge_commutative_associative(a: Span, b: Span, c: Span)
    ensures
        merged(a, b) == merged(b, a),
        merged(merged(a, b), c) == merged(a, merged(b, c)),
{
}

/// Merging a span with itself, or with a span it covers, leaves it as it is.
pub proof fn law_merge_absorbs(a: Span, b: Span)
    requires
        a.start <= b.start,
        b.end <= a.end,
    ensures
        merged(a, b) == a,
        merged(a, a) == a,
{
}

impl Default for Span {
    /// The empty span at offset 0.
    fn default() -> (r: Self)
        ensures
            r.start == 0 && r.end == 0,
    {
        Span::from(0usize)
    }
}

impl From<usize> for Span {
    /// The empty span at the given offset.
    fn from(value: usize) -> (r: Self) {
        Span { start: value, end: value }
    }
}

impl vstd::std_specs::convert::FromSpecImpl<usize> for Span {
    open spec fn obeys_from_spec() -> bool {
        true
    }

    open spec fn from_spec(value: usize) -> Self {
        Span { start: value, end: value }
    }
}

impl From<(usize, usize)> for Span {
    fn from(value: (usize, usize)) -> (r: Self) {
        Span { start: value.0, end: value.1 }
    }
}

impl vstd::std_specs::convert::FromSpecImpl<(usize, usize)> for Span {
    open spec fn obeys_from_spec() -> bool {
        true
    }

    open spec fn from_spec(value: (usize, usize)) -> Self {
        Span { start: value.0, end: value.1 }
    }
}

impl From<core::ops::Range<usize>> for Span {
    fn from(value: core::ops::Range<usize>) -> (r: Self) {
        Span { start: value.start, end: value.end }
    }
}

impl vstd::std_specs::convert::FromSpecImpl<core::ops::Range<usize>> for Span {
    open spec fn obeys_from_spec() -> bool {
        true
    }

    open spec fn from_spec(value: core::ops::Range<usize>) -> Self {
        Span { start: value.start, end: value.end }
    }
}

impl<'a> From<&'a Span> for Span {
    fn from(value: &'a Span) -> (r: Self) {
        *value
    }
}

impl<'a> vstd::std_specs::convert::FromSpecImpl<&'a Span> for Span {
    open spec fn obeys_from_spec() -> bool {
        true
    }

    open spec fn from_spec(value: &'a Span) -> Self {
        *value
    }
}

/// The part of `source` that `span` covers, like indexing a `str` with the span's range.
/// The span must lie on character boundaries of `source`.
pub fn index_str(source: &str, span: Span) -> (r: &str)
    requires
        span.start <= span.end <= source.spec_bytes().len(),
        vstd::utf8::is_char_boundary(source.spec_bytes(), span.start as int),
        vstd::utf8::is_char_boundary(source.spec_bytes(), span.end as int),
    ensures
        r.spec_bytes() == source.spec_bytes().subrange(span.start as int, span.end as int),
{
    let (head, _) = source.split_at(span.end);
    proof {
        let bytes = source.spec_bytes();
        vstd::utf8::encode_utf8_valid_utf8(source@);
        vstd::utf8::valid_utf8_split(bytes, span.end as int);
        let prefix = bytes.subrange(0, span.end as int);
        assert(head.spec_bytes() == prefix);
        if span.start < span.end {
            vstd::utf8::is_char_boundary_iff_not_is_continuation_byte(bytes, span.start as int);
            vstd::utf8::is_char_boundary_iff_not_is_continuation_byte(prefix, span.start as int);
        } else {
            vstd::utf8::is_char_boundary_start_end_of_seq(prefix);
        }
    }
    let (_, mid) = head.split_at(span.start);
    mid
}

} // verus!
