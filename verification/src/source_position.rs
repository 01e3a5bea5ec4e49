use vstd::prelude::*;

verus! {

/// The mathematical content of a [`SourcePosition`].
pub struct SourcePositionView {
    pub line: nat,
    pub col_utf8: nat,
    pub col_utf16: Option<nat>,
    pub byte_offset: nat,
}

/// A position in GraphQL source text, with dual column tracking.
///
/// All values are 0-based: `line` is the line number, `col_utf8` the number
/// of characters since the start of the line, `col_utf16` (when available)
/// the number of UTF-16 code units since the start of the line, and
/// `byte_offset` the byte offset from the start of the document.
#[derive(Clone, Copy, Debug, Eq, PartialEq)]
pub struct SourcePosition {
    line: usize,
    col_utf8: usize,
    col_utf16: Option<usize>,
    byte_offset: usize,
}

/// A 1-based line/column position, as used by `graphql_parser`.
#[derive(Clone, Copy, Debug, Eq, PartialEq)]
pub struct AstPos {
    pub line: usize,
    pub column: usize,
}

impl View for SourcePosition {
    type V = SourcePositionView;

    closed spec fn view(&self) -> SourcePositionView {
        SourcePositionView {
            line: self.line as nat,
            col_utf8: self.col_utf8 as nat,
            col_utf16: match self.col_utf16 {
                Some(c) => Some(c as nat),
                None => None,
            },
            byte_offset: self.byte_offset as nat,
        }
    }
}

impl SourcePosition {
    /// Two positions with the same view are the same position.
    pub broadcast proof fn lemma_view_injective(a: SourcePosition, b: SourcePosition)
        requires
            #[trigger] a@ == #[trigger] b@,
        ensures
            a == b,
    {
    }

    /// Create a new `SourcePosition`.
    pub fn new(line: usize, col_utf8: usize, col_utf16: Option<usize>, byte_offset: usize) -> (r:
        SourcePosition)
        ensures
            r@.line == line,
            r@.col_utf8 == col_utf8,
            r@.col_utf16 == (match col_utf16 {
                Some(c) => Some(c as nat),
                None => None::<nat>,
            }),
            r@.byte_offset == byte_offset,
    {
        SourcePosition { line, col_utf8, col_utf16, byte_offset }
    }

    /// Returns the 0-based line number.
    pub fn line(&self) -> (r: usize)
        ensures
            r == self@.line,
    {
        self.line
    }

    /// Returns the 0-based character count within the current line.
    pub fn col_utf8(&self) -> (r: usize)
        ensures
            r == self@.col_utf8,
    {
        self.col_utf8
    }

    /// Returns the 0-based UTF-16 code unit offset within the current line,
    /// if available.
    pub fn col_utf16(&self) -> (r: Option<usize>)
        ensures
            r matches Some(c) ==> self@.col_utf16 == Some(c as nat),
            r is None ==> self@.col_utf16 is None,
    {
        self.col_utf16
    }

    /// Returns the 0-based byte offset from document start.
    pub fn byte_offset(&self) -> (r: usize)
        ensures
            r == self@.byte_offset,
    {
        self.byte_offset
    }

    /// Convert to a 1-based `AstPos`; the column is derived from `col_utf8`.
    pub fn to_ast_pos(&self) -> (r: AstPos)
        requires
            self@.line < usize::MAX,
            self@.col_utf8 < usize::MAX,
        ensures
            r.line == self@.line + 1,
            r.column == self@.col_utf8 + 1,
    {
        AstPos { line: self.line + 1, column: self.col_utf8 + 1 }
    }
}

} // verus!
