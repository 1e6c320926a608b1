//! Byte ranges within a named source, and labelled ranges to underline.

use vstd::prelude::*;

verus! {

/// The mathematical value of a [`Span`]: the half-open byte range
/// `[start, end)`.
pub struct Extent {
    pub start: nat,
    pub end: nat,
}

impl Extent {
    /// Number of bytes in the range; zero when the bounds are out of order.
    pub open spec fn len(self) -> nat {
        if self.start <= self.end {
            (self.end - self.start) as nat
        } else {
            0
        }
    }

    /// The bounds are in order.
    pub open spec fn ordered(self) -> bool {
        self.start <= self.end
    }
}

/// A range of byte offsets `[start, end)` with `start <= end`.
#[derive(Clone, Copy, Debug)]
pub struct Span {
    start: usize,
    end: usize,
}

impl View for Span {
    type V = Extent;

    closed spec fn view(&self) -> Extent {
        Extent { start: self.start as nat, end: self.end as nat }
    }
}

impl Span {
    #[verifier::type_invariant]
    spec fn bounds_in_order(self) -> bool {
        self.start <= self.end
    }

    /// The span from `start` up to, not including, `end`; `None` when `end`
    /// lies before `start`.
    pub fn new(start: usize, end: usize) -> (span: Option<Span>)
        ensures
            span is Some <==> start <= end,
            span is Some ==> span.unwrap()@ == (Extent { start: start as nat, end: end as nat }),
    {
        if start <= end {
            Some(Span { start, end })
        } else {
            None
        }
    }

    /// Offset of the first byte.
    pub fn start(&self) -> (offset: usize)
        ensures
            offset == self@.start,
            self@.ordered(),
    {
        proof {
            use_type_invariant(self);
        }
        self.start
    }

    /// Offset just past the last byte.
    pub fn end(&self) -> (offset: usize)
        ensures
            offset == self@.end,
            self@.ordered(),
    {
        proof {
            use_type_invariant(self);
        }
        self.end
    }

    /// Number of bytes covered.
    pub fn len(&self) -> (n: usize)
        ensures
            n == self@.len(),
            n == self@.end - self@.start,
    {
        proof {
            use_type_invariant(self);
        }
        self.end - self.start
    }
}

/// A labelled range to underline within a snippet.
#[derive(Clone, Debug)]
pub struct Highlight {
    pub label: String,
    pub span: Span,
}

} // verus!
