use vstd::prelude::*;

verus! {

/// The mathematical reading of a span: the half-open interval of byte
/// offsets `[start, end)`.
pub struct Span {
    pub start: nat,
    pub end: nat,
}

/// A region of source text, given by its first byte offset and its length.
/// `end` is the exclusive upper bound `start + len`.
#[derive(Debug, Clone, Copy)]
pub struct TextSpan {
    pub start: usize,
    pub len: usize,
    pub end: usize,
}

impl View for TextSpan {
    type V = Span;

    open spec fn view(&self) -> Span {
        Span { start: self.start as nat, end: self.end as nat }
    }
}

impl TextSpan {
    /// The three fields agree: `end` lies `len` bytes after `start`.
    pub open spec fn wf(&self) -> bool {
        self.end == self.start + self.len
    }

    /// The span of `len` bytes that begins at `start`.
    pub fn new(start: usize, len: usize) -> (span: Self)
        requires
            start + len <= usize::MAX,
        ensures
            span.start == start,
            span.len == len,
            span.end == start + len,
            span.wf(),
            span@ == (Span { start: start as nat, end: (start + len) as nat }),
    {
        Self { start, len, end: start + len }
    }
}

} // verus!
