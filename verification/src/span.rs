use vstd::prelude::*;

verus! {

/// A byte range `start..end` within the source text.
#[derive(Debug, PartialEq, Eq, Clone, Copy, Default, Structural)]
pub struct Span {
    pub start: usize,
    pub end: usize,
}

/// A span is empty (or invalid) when it does not end after it starts.
pub open spec fn span_is_empty(a: Span) -> bool {
    a.end <= a.start
}

/// Two spans overlap when both are non-empty and each one starts before the other one ends.
pub open spec fn spans_overlap(a: Span, b: Span) -> bool {
    &&& !span_is_empty(a)
    &&& !span_is_empty(b)
    &&& a.start < b.end
    &&& b.start < a.end
}

impl Span {
    /// The empty span at the start of the text.
    pub open spec fn default_span() -> Span {
        Span { start: 0, end: 0 }
    }

    pub fn new(start: usize, end: usize) -> (span: Self)
        ensures
            span.start == start,
            span.end == end,
    {
        Self { start, end }
    }

    /// Returns `true` if this [Span] overlaps with the other [Span].
    ///
    /// Will always return `false` when one of the spans is empty or invalid (`end < start`).
    pub fn overlaps(&self, other: Span) -> (result: bool)
        ensures
            result == spans_overlap(*self, other),
    {
        self.start < self.end && other.start < other.end && self.start < other.end
            && other.start < self.end
    }
}

/// Overlapping is symmetric: `a` overlaps `b` exactly when `b` overlaps `a`.
pub proof fn lemma_overlap_symmetric(a: Span, b: Span)
    ensures
        spans_overlap(a, b) == spans_overlap(b, a),
{
}

/// A span that is empty or invalid (`end <= start`) never overlaps any span.
pub proof fn lemma_empty_span_never_overlaps(a: Span, b: Span)
    requires
        span_is_empty(a),
    ensures
        !spans_overlap(a, b),
        !spans_overlap(b, a),
{
}

/// Every non-empty span overlaps itself.
pub proof fn lemma_nonempty_span_overlaps_itself(a: Span)
    requires
        a.start < a.end,
    ensures
        spans_overlap(a, a),
{
}

} // verus!
