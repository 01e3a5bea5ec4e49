use crate::graphql_error_note::GraphQLErrorNote;
use crate::graphql_error_note::GraphQLErrorNotes;
use crate::graphql_error_note_kind::GraphQLErrorNoteKind;
use crate::graphql_parse_error_kind::GraphQLParseErrorKind;
use crate::source_position::SourcePositionView;
use crate::source_span::SourceSpan;
use crate::text::decimal;
use crate::text::decimal_len;
use crate::text::pad_left;
use crate::text::push_decimal;
use crate::text::push_padded;
use crate::text::push_repeat;
use crate::text::repeat_char;
use crate::text::spaces;
use crate::text::str_subslice;
use crate::text::usize_to_string;
use vstd::prelude::*;
use vstd::string::StringSliceAdditionalSpecFns;

verus! {

broadcast use vstd::utf8::group_utf8_lib;

// ── Lines of source text ─────────────────────────────────────────────

/// A line terminator byte (`\n` or `\r`).
pub open spec fn is_terminator(b: u8) -> bool {
    b == 10u8 || b == 13u8
}

/// The offset of the first line terminator at or after `s` (or the end of
/// the text if there is none).
pub open spec fn line_end(bytes: Seq<u8>, s: int) -> int
    decreases bytes.len() - s,
{
    if s < 0 || s >= bytes.len() {
        bytes.len() as int
    } else if is_terminator(bytes[s]) {
        s
    } else {
        line_end(bytes, s + 1)
    }
}

/// The start of the line after the line that starts at `s`, if the line
/// ends with a terminator (`\r\n` counts as one terminator).
pub open spec fn next_line_start(bytes: Seq<u8>, s: int) -> Option<int> {
    let e = line_end(bytes, s);
    if e >= bytes.len() {
        None
    } else if bytes[e] == 13u8 && e + 1 < bytes.len() && bytes[e + 1] == 10u8 {
        Some(e + 2)
    } else {
        Some(e + 1)
    }
}

/// The byte offset at which the `k`-th line (0-based) starts, if the text
/// has that many lines.
pub open spec fn nth_line_start(bytes: Seq<u8>, k: nat) -> Option<int>
    decreases k,
{
    if k == 0 {
        Some(0)
    } else {
        match nth_line_start(bytes, (k - 1) as nat) {
            Some(s) => next_line_start(bytes, s),
            None => None,
        }
    }
}

/// The bytes of the `k`-th line (0-based), without its terminator.
pub open spec fn spec_line(bytes: Seq<u8>, k: nat) -> Option<Seq<u8>> {
    match nth_line_start(bytes, k) {
        Some(s) => Some(bytes.subrange(s, line_end(bytes, s))),
        None => None,
    }
}

proof fn lemma_line_end_at(bytes: Seq<u8>, s: int, e: int)
    requires
        0 <= s <= e <= bytes.len(),
        forall|j: int| s <= j < e ==> !is_terminator(#[trigger] bytes[j]),
        e == bytes.len() || is_terminator(bytes[e]),
    ensures
        line_end(bytes, s) == e,
    decreases e - s,
{
    if s < e {
        lemma_line_end_at(bytes, s + 1, e);
    }
}

proof fn lemma_nth_line_start_bounds(bytes: Seq<u8>, k: nat)
    ensures
        nth_line_start(bytes, k) matches Some(s) ==> 0 <= s <= bytes.len() && (s == 0 || bytes[s
            - 1] < 0x80),
    decreases k,
{
    if k > 0 {
        lemma_nth_line_start_bounds(bytes, (k - 1) as nat);
        if let Some(s) = nth_line_start(bytes, (k - 1) as nat) {
            lemma_line_end_bounds(bytes, s);
        }
    }
}

proof fn lemma_line_end_bounds(bytes: Seq<u8>, s: int)
    requires
        0 <= s <= bytes.len(),
    ensures
        s <= line_end(bytes, s) <= bytes.len(),
        line_end(bytes, s) < bytes.len() ==> is_terminator(bytes[line_end(bytes, s)]),
    decreases bytes.len() - s,
{
    if s < bytes.len() && !is_terminator(bytes[s]) {
        lemma_line_end_bounds(bytes, s + 1);
    }
}

/// Finds the first occurrence of either needle in `haystack`
/// (`memchr::memchr2`): the index of the first byte equal to `needle1` or
/// `needle2`, or `None` when no byte is.
#[verifier::external_body]
fn memchr2(needle1: u8, needle2: u8, haystack: &[u8]) -> (r: Option<usize>)
    ensures
        r matches Some(i) ==> i < haystack@.len() && (haystack@[i as int] == needle1
            || haystack@[i as int] == needle2) && forall|j: int|
            0 <= j < i ==> haystack@[j] != needle1 && haystack@[j] != needle2,
        r is None ==> forall|j: int|
            0 <= j < haystack@.len() ==> haystack@[j] != needle1 && haystack@[j] != needle2,
{
    memchr::memchr2(needle1, needle2, haystack)
}

/// Extracts the content of the line at the given 0-based line index, without
/// its line terminator (`\n`, `\r\n`, or a bare `\r`). Returns `None` if
/// the text has fewer lines.
pub fn get_line(source: &str, line_index: usize) -> (r: Option<&str>)
    ensures
        r matches Some(l) ==> spec_line(source.spec_bytes(), line_index as nat) == Some(
            l.spec_bytes(),
        ),
        r is None ==> spec_line(source.spec_bytes(), line_index as nat) is None,
{
    let bytes = source.as_bytes();
    let mut current_line: usize = 0;
    let mut pos: usize = 0;
    while current_line < line_index
        invariant
            current_line <= line_index,
            bytes@ == source.spec_bytes(),
            nth_line_start(bytes@, current_line as nat) == Some(pos as int),
            pos <= bytes@.len(),
        decreases line_index - current_line,
    {
        let rest = vstd::slice::slice_subrange(bytes, pos, bytes.len());
        proof {
            lemma_line_end_bounds(bytes@, pos as int);
        }
        match memchr2(10u8, 13u8, rest) {
            Some(offset) => {
                proof {
                    assert forall|j: int| pos <= j < pos + offset implies !is_terminator(
                        #[trigger] bytes@[j],
                    ) by {
                        assert(rest@[j - pos] == bytes@[j]);
                    }
                    assert(rest@[offset as int] == bytes@[pos + offset]);
                    lemma_line_end_at(bytes@, pos as int, (pos + offset) as int);
                }
                pos = pos + offset;
                if bytes[pos] == 13u8 && pos + 1 < bytes.len() && bytes[pos + 1] == 10u8 {
                    pos = pos + 2;
                } else {
                    pos = pos + 1;
                }
                current_line = current_line + 1;
            },
            None => {
                proof {
                    assert forall|j: int| pos <= j < bytes@.len() implies !is_terminator(
                        #[trigger] bytes@[j],
                    ) by {
                        assert(rest@[j - pos] == bytes@[j]);
                    }
                    lemma_line_end_at(bytes@, pos as int, bytes@.len() as int);
                    assert(nth_line_start(bytes@, (current_line + 1) as nat) is None);
                    lemma_no_more_lines(bytes@, (current_line + 1) as nat, line_index as nat);
                }
                return None;
            },
        }
    }
    let rest = vstd::slice::slice_subrange(bytes, pos, bytes.len());
    let line_end_pos = match memchr2(10u8, 13u8, rest) {
        Some(offset) => {
            proof {
                assert forall|j: int| pos <= j < pos + offset implies !is_terminator(
                    #[trigger] bytes@[j],
                ) by {
                    assert(rest@[j - pos] == bytes@[j]);
                }
                assert(rest@[offset as int] == bytes@[pos + offset]);
                lemma_line_end_at(bytes@, pos as int, (pos + offset) as int);
            }
            pos + offset
        },
        None => {
            proof {
                assert forall|j: int| pos <= j < bytes@.len() implies !is_terminator(
                    #[trigger] bytes@[j],
                ) by {
                    assert(rest@[j - pos] == bytes@[j]);
                }
                lemma_line_end_at(bytes@, pos as int, bytes@.len() as int);
            }
            bytes.len()
        },
    };
    proof {
        lemma_nth_line_start_bounds(bytes@, current_line as nat);
        lemma_line_end_bounds(bytes@, pos as int);
    }
    Some(str_subslice(source, pos, line_end_pos))
}

proof fn lemma_no_more_lines(bytes: Seq<u8>, k: nat, m: nat)
    requires
        k <= m,
        nth_line_start(bytes, k) is None,
    ensures
        nth_line_start(bytes, m) is None,
    decreases m - k,
{
    if k < m {
        lemma_no_more_lines(bytes, k + 1, m);
    }
}

// ── Diagnostic rendering ─────────────────────────────────────────────

/// The name shown for the file a span refers to.
pub open spec fn file_name_text(span: SourceSpan) -> Seq<char> {
    match span.file_path {
        Some(p) => p@,
        None => "<input>"@,
    }
}

/// The width of the line-number gutter for a 1-based line number.
pub open spec fn gutter_width(display_line: nat) -> nat {
    if decimal(display_line).len() > 2 {
        decimal(display_line).len()
    } else {
        2
    }
}

/// The source snippet shown under an error header: the line of the
/// error's start position with a caret underline from its start column to
/// its end column (at least one caret).
pub open spec fn source_snippet(
    source: Option<Seq<u8>>,
    start: SourcePositionView,
    end: SourcePositionView,
) -> Option<Seq<char>> {
    match source {
        None => None,
        Some(bytes) => match spec_line(bytes, start.line) {
            None => None,
            Some(line) => {
                let d = start.line + 1;
                let w = gutter_width(d);
                let carets: nat = if end.col_utf8 > start.col_utf8 {
                    (end.col_utf8 - start.col_utf8) as nat
                } else {
                    1
                };
                Some(
                    spaces(w) + " |\n"@ + pad_left(decimal(d), w) + " | "@ + vstd::utf8::decode_utf8(line)
                        + "\n"@ + spaces(w) + " | "@ + spaces(start.col_utf8) + repeat_char('^', carets)
                        + "\n"@,
                )
            },
        },
    }
}

/// The source snippet shown under a note that points at a location.
pub open spec fn note_snippet(source: Option<Seq<u8>>, start: SourcePositionView) -> Option<
    Seq<char>,
> {
    match source {
        None => None,
        Some(bytes) => match spec_line(bytes, start.line) {
            None => None,
            Some(line) => {
                let d = start.line + 1;
                let w = gutter_width(d);
                Some(
                    "     "@ + pad_left(decimal(d), w) + " | "@ + vstd::utf8::decode_utf8(line)
                        + "\n"@ + "     "@ + spaces(w) + " | "@ + spaces(start.col_utf8) + "-\n"@,
                )
            },
        },
    }
}

/// The rendering prefix of a note kind.
pub open spec fn note_prefix(kind: GraphQLErrorNoteKind) -> Seq<char> {
    match kind {
        GraphQLErrorNoteKind::General => "note"@,
        GraphQLErrorNoteKind::Help => "help"@,
        GraphQLErrorNoteKind::Spec => "spec"@,
    }
}

/// The rendering of one note: `   = <prefix>: <message>` and, when the note
/// has a span whose line can be shown, a snippet.
pub open spec fn note_text(note: GraphQLErrorNote, source: Option<Seq<u8>>) -> Seq<char> {
    "   = "@ + note_prefix(note.kind) + ": "@ + note.message@ + "\n"@ + match note.span {
        Some(sp) => match note_snippet(source, sp.start_inclusive@) {
            Some(snip) => snip,
            None => Seq::empty(),
        },
        None => Seq::empty(),
    }
}

/// The rendering of a list of notes, in order.
pub open spec fn notes_text(notes: Seq<GraphQLErrorNote>, source: Option<Seq<u8>>) -> Seq<char>
    decreases notes.len(),
{
    if notes.len() == 0 {
        Seq::empty()
    } else {
        notes_text(notes.drop_last(), source) + note_text(notes.last(), source)
    }
}

/// The location `<file>:<line>:<column>` (1-based) of a span's start.
pub open spec fn location_text(span: SourceSpan) -> Seq<char> {
    file_name_text(span) + ":"@ + decimal(span.start_inclusive@.line + 1) + ":"@ + decimal(
        span.start_inclusive@.col_utf8 + 1,
    )
}

/// The positions of a span can be shown 1-based without overflow.
pub open spec fn displayable(span: SourceSpan) -> bool {
    span.start_inclusive@.line < usize::MAX && span.start_inclusive@.col_utf8 < usize::MAX
}

/// A note's position (if any) can be shown 1-based without overflow.
pub open spec fn note_displayable(note: GraphQLErrorNote) -> bool {
    match note.span {
        Some(sp) => sp.start_inclusive@.line < usize::MAX,
        None => true,
    }
}

/// The bytes of an optional source text.
pub open spec fn opt_bytes(source: Option<&str>) -> Option<Seq<u8>> {
    match source {
        Some(s) => Some(s.spec_bytes()),
        None => None,
    }
}

/// A parse error with location information and contextual notes.
#[derive(Debug, Clone)]
pub struct GraphQLParseError {
    message: String,
    kind: GraphQLParseErrorKind,
    notes: GraphQLErrorNotes,
    source_span: SourceSpan,
}

impl GraphQLParseError {
    /// The human-readable message.
    pub closed spec fn spec_message(&self) -> Seq<char> {
        self.message@
    }

    /// The categorized error kind.
    pub closed spec fn spec_kind(&self) -> GraphQLParseErrorKind {
        self.kind
    }

    /// The notes, in the order they were added.
    pub closed spec fn spec_notes(&self) -> Seq<GraphQLErrorNote> {
        self.notes@
    }

    /// The pre-resolved source span.
    pub closed spec fn spec_source_span(&self) -> SourceSpan {
        self.source_span
    }

    /// The single-line rendering: `<file>:<line>:<col>: error: <message>`.
    pub open spec fn oneline_text(&self) -> Seq<char> {
        location_text(self.spec_source_span()) + ": error: "@ + self.spec_message()
    }

    /// The detailed rendering: header, location, source snippet (when the
    /// source has the error's line) and notes.
    pub open spec fn detailed_text(&self, source: Option<Seq<u8>>) -> Seq<char> {
        let span = self.spec_source_span();
        "error: "@ + self.spec_message() + "\n"@ + "  --> "@ + location_text(span) + "\n"@ + match source_snippet(
            source,
            span.start_inclusive@,
            span.end_exclusive@,
        ) {
            Some(snip) => snip,
            None => Seq::empty(),
        } + notes_text(self.spec_notes(), source)
    }

    /// Creates a new parse error with no notes.
    pub fn new(message: String, kind: GraphQLParseErrorKind, source_span: SourceSpan) -> (r:
        GraphQLParseError)
        ensures
            r.spec_message() == message@,
            r.spec_kind() == kind,
            r.spec_notes() == Seq::<GraphQLErrorNote>::empty(),
            r.spec_source_span() == source_span,
    {
        GraphQLParseError { message, kind, notes: Vec::new(), source_span }
    }

    /// Creates a new parse error with notes.
    pub fn with_notes(
        message: String,
        kind: GraphQLParseErrorKind,
        notes: GraphQLErrorNotes,
        source_span: SourceSpan,
    ) -> (r: GraphQLParseError)
        ensures
            r.spec_message() == message@,
            r.spec_kind() == kind,
            r.spec_notes() == notes@,
            r.spec_source_span() == source_span,
    {
        GraphQLParseError { message, kind, notes, source_span }
    }

    /// Creates a parse error from a lexer error, preserving the lexer's
    /// message and notes.
    pub fn from_lexer_error(message: String, lexer_notes: GraphQLErrorNotes, source_span: SourceSpan) -> (r:
        GraphQLParseError)
        ensures
            r.spec_message() == message@,
            r.spec_kind() == GraphQLParseErrorKind::LexerError,
            r.spec_notes() == lexer_notes@,
            r.spec_source_span() == source_span,
    {
        GraphQLParseError {
            message,
            kind: GraphQLParseErrorKind::LexerError,
            notes: lexer_notes,
            source_span,
        }
    }

    /// Returns the human-readable error message.
    pub fn message(&self) -> (r: &str)
        ensures
            r@ == self.spec_message(),
    {
        self.message.as_str()
    }

    /// Returns the pre-resolved source span for this error.
    pub fn source_span(&self) -> (r: &SourceSpan)
        ensures
            *r == self.spec_source_span(),
    {
        &self.source_span
    }

    /// Returns the categorized error kind.
    pub fn kind(&self) -> (r: &GraphQLParseErrorKind)
        ensures
            *r == self.spec_kind(),
    {
        &self.kind
    }

    /// Returns the additional notes for this error.
    pub fn notes(&self) -> (r: &GraphQLErrorNotes)
        ensures
            r@ == self.spec_notes(),
    {
        &self.notes
    }

    /// Adds a general note without a span.
    pub fn add_note(&mut self, message: String)
        ensures
            final(self).spec_notes() == old(self).spec_notes().push(
                GraphQLErrorNote { kind: GraphQLErrorNoteKind::General, message, span: None },
            ),
            final(self).spec_message() == old(self).spec_message(),
            final(self).spec_kind() == old(self).spec_kind(),
            final(self).spec_source_span() == old(self).spec_source_span(),
    {
        self.notes.push(GraphQLErrorNote::general(message));
    }

    /// Adds a general note pointing to a related location.
    pub fn add_note_with_span(&mut self, message: String, span: SourceSpan)
        ensures
            final(self).spec_notes() == old(self).spec_notes().push(
                GraphQLErrorNote { kind: GraphQLErrorNoteKind::General, message, span: Some(span) },
            ),
            final(self).spec_message() == old(self).spec_message(),
            final(self).spec_kind() == old(self).spec_kind(),
            final(self).spec_source_span() == old(self).spec_source_span(),
    {
        self.notes.push(GraphQLErrorNote::general_with_span(message, span));
    }

    /// Adds a help note without a span.
    pub fn add_help(&mut self, message: String)
        ensures
            final(self).spec_notes() == old(self).spec_notes().push(
                GraphQLErrorNote { kind: GraphQLErrorNoteKind::Help, message, span: None },
            ),
            final(self).spec_message() == old(self).spec_message(),
            final(self).spec_kind() == old(self).spec_kind(),
            final(self).spec_source_span() == old(self).spec_source_span(),
    {
        self.notes.push(GraphQLErrorNote::help(message));
    }

    /// Adds a help note pointing to a related location.
    pub fn add_help_with_span(&mut self, message: String, span: SourceSpan)
        ensures
            final(self).spec_notes() == old(self).spec_notes().push(
                GraphQLErrorNote { kind: GraphQLErrorNoteKind::Help, message, span: Some(span) },
            ),
            final(self).spec_message() == old(self).spec_message(),
            final(self).spec_kind() == old(self).spec_kind(),
            final(self).spec_source_span() == old(self).spec_source_span(),
    {
        self.notes.push(GraphQLErrorNote::help_with_span(message, span));
    }

    /// Adds a specification reference note.
    pub fn add_spec(&mut self, url: String)
        ensures
            final(self).spec_notes() == old(self).spec_notes().push(
                GraphQLErrorNote { kind: GraphQLErrorNoteKind::Spec, message: url, span: None },
            ),
            final(self).spec_message() == old(self).spec_message(),
            final(self).spec_kind() == old(self).spec_kind(),
            final(self).spec_source_span() == old(self).spec_source_span(),
    {
        self.notes.push(GraphQLErrorNote::spec(url));
    }

    /// Appends `<file>:<line>:<column>` of the error's start position.
    fn push_location(&self, out: &mut String)
        requires
            displayable(self.spec_source_span()),
        ensures
            final(out)@ == old(out)@ + location_text(self.spec_source_span()),
    {
        match &self.source_span.file_path {
            Some(p) => out.append(p.as_str()),
            None => out.append("<input>"),
        }
        out.append(":");
        push_decimal(out, self.source_span.start_inclusive.line() + 1);
        out.append(":");
        push_decimal(out, self.source_span.start_inclusive.col_utf8() + 1);
        assert(final(out)@ =~= old(out)@ + location_text(self.spec_source_span()));
    }

    /// Formats this error as a diagnostic string for CLI output: a header
    /// `error: <message>`, the location line `  --> <file>:<line>:<column>`,
    /// a source snippet with a caret underline when `source` is given and
    /// has the error's line, then one `   = <kind>: <message>` line per note
    /// (followed by a snippet for notes with a span).
    pub fn format_detailed(&self, source: Option<&str>) -> (r: String)
        requires
            displayable(self.spec_source_span()),
            forall|i: int| 0 <= i < self.spec_notes().len() ==> note_displayable(#[trigger] self.spec_notes()[i]),
        ensures
            r@ == self.detailed_text(opt_bytes(source)),
    {
        let mut output = String::new();
        output.append("error: ");
        output.append(self.message.as_str());
        output.append("\n");
        output.append("  --> ");
        self.push_location(&mut output);
        output.append("\n");
        let ghost head = output@;
        let snippet = Self::format_source_snippet(
            source,
            &self.source_span.start_inclusive,
            &self.source_span.end_exclusive,
        );
        match snippet {
            Some(s) => output.append(s.as_str()),
            None => {},
        }
        let ghost with_snippet = output@;
        let mut i: usize = 0;
        while i < self.notes.len()
            invariant
                i <= self.notes@.len(),
                self.notes@ == self.spec_notes(),
                forall|j: int| 0 <= j < self.spec_notes().len() ==> note_displayable(#[trigger] self.spec_notes()[j]),
                output@ == with_snippet + notes_text(self.notes@.take(i as int), opt_bytes(source)),
            decreases self.notes@.len() - i,
        {
            Self::push_note(&mut output, &self.notes[i], source);
            proof {
                assert(self.notes@.take(i + 1).drop_last() =~= self.notes@.take(i as int));
            }
            i = i + 1;
            assert(output@ =~= with_snippet + notes_text(self.notes@.take(i as int), opt_bytes(source)));
        }
        assert(self.notes@.take(i as int) =~= self.notes@);
        assert(output@ =~= self.detailed_text(opt_bytes(source)));
        output
    }

    /// Appends the rendering of one note.
    fn push_note(output: &mut String, note: &GraphQLErrorNote, source: Option<&str>)
        requires
            note_displayable(*note),
        ensures
            final(output)@ == old(output)@ + note_text(*note, opt_bytes(source)),
    {
        output.append("   = ");
        match note.kind {
            GraphQLErrorNoteKind::General => output.append("note"),
            GraphQLErrorNoteKind::Help => output.append("help"),
            GraphQLErrorNoteKind::Spec => output.append("spec"),
        }
        output.append(": ");
        output.append(note.message.as_str());
        output.append("\n");
        match &note.span {
            Some(sp) => {
                match Self::format_note_snippet(source, &sp.start_inclusive) {
                    Some(s) => output.append(s.as_str()),
                    None => {},
                }
            },
            None => {},
        }
        assert(final(output)@ =~= old(output)@ + note_text(*note, opt_bytes(source)));
    }

    /// Formats this error as a single-line summary:
    /// `<file>:<line>:<column>: error: <message>`.
    pub fn format_oneline(&self) -> (r: String)
        requires
            displayable(self.spec_source_span()),
        ensures
            r@ == self.oneline_text(),
    {
        let mut output = String::new();
        self.push_location(&mut output);
        output.append(": error: ");
        output.append(self.message.as_str());
        assert(output@ =~= self.oneline_text());
        output
    }

    /// Formats the source snippet for the primary error span.
    fn format_source_snippet(
        source: Option<&str>,
        start_pos: &crate::source_position::SourcePosition,
        end_pos: &crate::source_position::SourcePosition,
    ) -> (r: Option<String>)
        requires
            start_pos@.line < usize::MAX,
        ensures
            r matches Some(s) ==> source_snippet(opt_bytes(source), start_pos@, end_pos@) == Some(s@),
            r is None ==> source_snippet(opt_bytes(source), start_pos@, end_pos@) is None,
    {
        let source = match source {
            Some(s) => s,
            None => return None,
        };
        let line_num = start_pos.line();
        let line_content = match get_line(source, line_num) {
            Some(l) => l,
            None => return None,
        };
        let display_line_num = line_num + 1;
        let digits = decimal_len(display_line_num);
        let width = if digits > 2 { digits } else { 2 };
        let number = usize_to_string(display_line_num);
        let mut output = String::new();
        push_repeat(&mut output, ' ', width);
        output.append(" |\n");
        push_padded(&mut output, number.as_str(), width);
        output.append(" | ");
        output.append(line_content);
        output.append("\n");
        let col_start = start_pos.col_utf8();
        let col_end = end_pos.col_utf8();
        let underline_len = if col_end > col_start { col_end - col_start } else { 1 };
        push_repeat(&mut output, ' ', width);
        output.append(" | ");
        push_repeat(&mut output, ' ', col_start);
        push_repeat(&mut output, '^', underline_len);
        output.append("\n");
        proof {
            vstd::utf8::encode_utf8_decode_utf8(line_content@);
            assert(repeat_char(' ', width as nat) =~= spaces(width as nat));
            assert(repeat_char(' ', col_start as nat) =~= spaces(col_start as nat));
        }
        assert(output@ =~= source_snippet(opt_bytes(Some(source)), start_pos@, end_pos@)->0);
        Some(output)
    }

    /// Formats a source snippet for a note's pre-resolved position.
    fn format_note_snippet(
        source: Option<&str>,
        start_pos: &crate::source_position::SourcePosition,
    ) -> (r: Option<String>)
        requires
            start_pos@.line < usize::MAX,
        ensures
            r matches Some(s) ==> note_snippet(opt_bytes(source), start_pos@) == Some(s@),
            r is None ==> note_snippet(opt_bytes(source), start_pos@) is None,
    {
        let source = match source {
            Some(s) => s,
            None => return None,
        };
        let line_num = start_pos.line();
        let line_content = match get_line(source, line_num) {
            Some(l) => l,
            None => return None,
        };
        let display_line_num = line_num + 1;
        let digits = decimal_len(display_line_num);
        let width = if digits > 2 { digits } else { 2 };
        let number = usize_to_string(display_line_num);
        let mut output = String::new();
        output.append("     ");
        push_padded(&mut output, number.as_str(), width);
        output.append(" | ");
        output.append(line_content);
        output.append("\n");
        output.append("     ");
        push_repeat(&mut output, ' ', width);
        output.append(" | ");
        push_repeat(&mut output, ' ', start_pos.col_utf8());
        output.append("-\n");
        proof {
            vstd::utf8::encode_utf8_decode_utf8(line_content@);
            assert(repeat_char(' ', width as nat) =~= spaces(width as nat));
            assert(repeat_char(' ', start_pos@.col_utf8) =~= spaces(start_pos@.col_utf8));
        }
        assert(output@ =~= note_snippet(opt_bytes(Some(source)), start_pos@)->0);
        Some(output)
    }
}

} // verus!
