//! Byte ranges of the source text, and values tagged with one.

use vstd::prelude::*;

verus! {

/// The byte range `start..end` of the source text.
#[derive(Clone, Copy, Debug, PartialEq, Eq)]
pub struct Span {
    pub start: usize,
    pub end: usize,
}

impl Span {
    pub fn new(start: usize, end: usize) -> (span: Span)
        ensures
            span == (Span { start, end }),
    {
        Span { start, end }
    }
}

/// A value together with the span of source text it comes from.
#[derive(Clone, Copy, Debug, PartialEq)]
pub struct Spanned<T> {
    pub inner: T,
    pub span: Span,
}

impl<T> Spanned<T> {
    pub fn with_span(inner: T, span: Span) -> (s: Spanned<T>)
        ensures
            s.inner == inner,
            s.span == span,
    {
        Spanned { inner, span }
    }
}

} // verus!
