use crate::source_position::SourcePosition;
use vstd::prelude::*;

verus! {

/// A span of source text from a start position (inclusive) to an end
/// position (exclusive), optionally tagged with the file it refers to.
#[derive(Clone, Debug, Eq, PartialEq)]
pub struct SourceSpan {
    pub start_inclusive: SourcePosition,
    pub end_exclusive: SourcePosition,
    /// The file path of the source text this span refers to, if available.
    pub file_path: Option<String>,
}

impl SourceSpan {
    /// Creates a zero-position span (line 0, column 0, byte 0, no UTF-16
    /// column) with no file path.
    pub fn zero() -> (r: SourceSpan)
        ensures
            r.start_inclusive@.line == 0,
            r.start_inclusive@.col_utf8 == 0,
            r.start_inclusive@.col_utf16 is None,
            r.start_inclusive@.byte_offset == 0,
            r.end_exclusive == r.start_inclusive,
            r.file_path is None,
    {
        let zero_pos = SourcePosition::new(0, 0, None, 0);
        SourceSpan { start_inclusive: zero_pos, end_exclusive: zero_pos, file_path: None }
    }

    /// Creates a span without file path information.
    pub fn new(start: SourcePosition, end: SourcePosition) -> (r: SourceSpan)
        ensures
            r.start_inclusive == start,
            r.end_exclusive == end,
            r.file_path is None,
    {
        SourceSpan { start_inclusive: start, end_exclusive: end, file_path: None }
    }

    /// Creates a span with file path information.
    pub fn with_file(start: SourcePosition, end: SourcePosition, file_path: String) -> (r:
        SourceSpan)
        ensures
            r.start_inclusive == start,
            r.end_exclusive == end,
            r.file_path == Some(file_path),
    {
        SourceSpan { start_inclusive: start, end_exclusive: end, file_path: Some(file_path) }
    }
}

} // verus!
