use crate::byte_span::ByteSpan;
use crate::source_position::SourcePosition;
use crate::source_span::SourceSpan;
use vstd::prelude::*;

verus! {

/// A span of source text carried by AST nodes: a start position
/// (inclusive), an end position (exclusive) and an optional file path.
#[derive(Clone, Debug, Eq, PartialEq)]
pub struct GraphQLSourceSpan {
    pub start_inclusive: SourcePosition,
    pub end_exclusive: SourcePosition,
    /// The file path of the source text this span refers to, if available.
    pub file_path: Option<String>,
}

impl GraphQLSourceSpan {
    /// Creates a span without file path information.
    pub fn new(start: SourcePosition, end: SourcePosition) -> (r: GraphQLSourceSpan)
        ensures
            r.start_inclusive == start,
            r.end_exclusive == end,
            r.file_path is None,
    {
        GraphQLSourceSpan { start_inclusive: start, end_exclusive: end, file_path: None }
    }

    /// Creates a span with file path information.
    pub fn with_file(start: SourcePosition, end: SourcePosition, file_path: String) -> (r:
        GraphQLSourceSpan)
        ensures
            r.start_inclusive == start,
            r.end_exclusive == end,
            r.file_path == Some(file_path),
    {
        GraphQLSourceSpan { start_inclusive: start, end_exclusive: end, file_path: Some(file_path) }
    }

    /// Extracts a compact `ByteSpan` from this span's byte offsets,
    /// discarding line/column and file path information.
    pub fn byte_span(&self) -> (r: ByteSpan)
        ensures
            r.start == self.start_inclusive@.byte_offset as u32,
            r.end == self.end_exclusive@.byte_offset as u32,
    {
        ByteSpan {
            start: self.start_inclusive.byte_offset() as u32,
            end: self.end_exclusive.byte_offset() as u32,
        }
    }

    /// `s` has the positions and file path of this span.
    pub open spec fn same_as(&self, s: SourceSpan) -> bool {
        &&& s.start_inclusive == self.start_inclusive
        &&& s.end_exclusive == self.end_exclusive
        &&& s.file_path is None <==> self.file_path is None
        &&& s.file_path is Some ==> s.file_path->0@ == self.file_path->0@
    }

    /// The `SourceSpan` with the positions and file path of this span.
    pub fn to_source_span(&self) -> (r: SourceSpan)
        ensures
            self.same_as(r),
    {
        let file_path = match &self.file_path {
            Some(p) => Some(p.clone()),
            None => None,
        };
        SourceSpan {
            start_inclusive: self.start_inclusive,
            end_exclusive: self.end_exclusive,
            file_path,
        }
    }

    /// A copy of this span with the same positions and file path.
    pub fn duplicate(&self) -> (r: GraphQLSourceSpan)
        ensures
            r == *self,
            r.start_inclusive == self.start_inclusive,
            r.end_exclusive == self.end_exclusive,
            r.file_path is None <==> self.file_path is None,
            r.file_path is Some ==> r.file_path->0@ == self.file_path->0@,
    {
        let file_path = match &self.file_path {
            Some(p) => Some(p.clone()),
            None => None,
        };
        GraphQLSourceSpan {
            start_inclusive: self.start_inclusive,
            end_exclusive: self.end_exclusive,
            file_path,
        }
    }
}

} // verus!
