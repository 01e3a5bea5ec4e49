use crate::source_map::spec_resolve;
use crate::source_map::SourceMap;
use crate::source_span::SourceSpan;
use vstd::prelude::*;

verus! {

/// A compact source span representing a half-open byte range `[start, end)`.
///
/// Both `start` and `end` are 0-based byte offsets from the beginning of the
/// source text.
#[derive(Copy, Clone, Debug, Default, Eq, Hash, PartialEq)]
pub struct ByteSpan {
    /// Byte offset of the first character (inclusive).
    pub start: u32,
    /// Byte offset immediately after the last character (exclusive).
    pub end: u32,
}

impl ByteSpan {
    /// A span is well formed when it does not end before it starts.
    pub open spec fn wf(self) -> bool {
        self.start <= self.end
    }

    /// The number of bytes the span covers.
    pub open spec fn spec_len(self) -> int {
        self.end - self.start
    }

    /// Creates a new `ByteSpan` from start (inclusive) and end (exclusive)
    /// byte offsets.
    pub fn new(start: u32, end: u32) -> (r: ByteSpan)
        requires
            start <= end,
        ensures
            r.start == start,
            r.end == end,
    {
        ByteSpan { start, end }
    }

    /// Returns the length of this span in bytes.
    pub fn len(&self) -> (r: u32)
        requires
            self.wf(),
        ensures
            r == self.spec_len(),
    {
        self.end - self.start
    }

    /// Returns `true` if the span is empty (zero length).
    pub fn is_empty(&self) -> (r: bool)
        ensures
            r == (self.start == self.end),
    {
        self.start == self.end
    }

    /// Creates an empty span at the given byte offset.
    pub fn empty_at(offset: u32) -> (r: ByteSpan)
        ensures
            r.start == offset,
            r.end == offset,
    {
        ByteSpan { start: offset, end: offset }
    }

    /// Creates a span that covers both `self` and `other`: it starts at the
    /// minimum start and ends at the maximum end of the two spans.
    pub fn merge(self, other: ByteSpan) -> (r: ByteSpan)
        ensures
            r == merged(self, other),
    {
        let start = if self.start <= other.start { self.start } else { other.start };
        let end = if self.end >= other.end { self.end } else { other.end };
        ByteSpan { start, end }
    }
    /// Resolves this span to line/column positions with `source_map`, or
    /// `None` when either end cannot be resolved.
    pub fn resolve(&self, source_map: &SourceMap) -> (r: Option<SourceSpan>)
        requires
            source_map.wf(),
        ensures
            r is Some <==> (spec_resolve(source_map@, self.start) is Some && spec_resolve(
                source_map@,
                self.end,
            ) is Some),
            r matches Some(s) ==> {
                &&& spec_resolve(source_map@, self.start) == Some(s.start_inclusive@)
                &&& spec_resolve(source_map@, self.end) == Some(s.end_exclusive@)
                &&& s.file_path is Some <==> source_map@.file_path is Some
                &&& s.file_path is Some ==> source_map@.file_path == Some(s.file_path->0@)
            },
    {
        source_map.resolve_span(*self)
    }
}

/// The span covering both `a` and `b`: from the smaller start to the
/// larger end.
pub open spec fn merged(a: ByteSpan, b: ByteSpan) -> ByteSpan {
    ByteSpan {
        start: if a.start <= b.start { a.start } else { b.start },
        end: if a.end >= b.end { a.end } else { b.end },
    }
}

/// The merged span covers both of its inputs and is well formed when they
/// are, merging is commutative, and merging a span with itself gives the
/// span back.
pub proof fn lemma_merge_covers(a: ByteSpan, b: ByteSpan)
    ensures
        merged(a, b).start <= a.start && merged(a, b).start <= b.start,
        a.end <= merged(a, b).end && b.end <= merged(a, b).end,
        a.wf() ==> merged(a, b).wf(),
        merged(a, b) == merged(b, a),
        merged(a, a) == a,
{
}

} // verus!
