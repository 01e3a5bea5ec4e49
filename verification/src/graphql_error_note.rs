use crate::graphql_error_note_kind::GraphQLErrorNoteKind;
use crate::source_span::SourceSpan;
use vstd::prelude::*;

verus! {

/// An error note providing additional context about an error: an
/// explanation, a suggestion, a specification reference, or a related
/// source location.
#[derive(Debug, Clone, PartialEq)]
pub struct GraphQLErrorNote {
    /// The kind of note (determines rendering prefix).
    pub kind: GraphQLErrorNoteKind,
    /// The note message.
    pub message: String,
    /// Optional span pointing to a related location.
    pub span: Option<SourceSpan>,
}

/// The notes attached to an error.
pub type GraphQLErrorNotes = Vec<GraphQLErrorNote>;

impl GraphQLErrorNote {
    /// Creates a general note without a span.
    pub fn general(message: String) -> (r: GraphQLErrorNote)
        ensures
            r.kind == GraphQLErrorNoteKind::General,
            r.message == message,
            r.span is None,
    {
        GraphQLErrorNote { kind: GraphQLErrorNoteKind::General, message, span: None }
    }

    /// Creates a general note with a span.
    pub fn general_with_span(message: String, span: SourceSpan) -> (r: GraphQLErrorNote)
        ensures
            r.kind == GraphQLErrorNoteKind::General,
            r.message == message,
            r.span == Some(span),
    {
        GraphQLErrorNote { kind: GraphQLErrorNoteKind::General, message, span: Some(span) }
    }

    /// Creates a help note without a span.
    pub fn help(message: String) -> (r: GraphQLErrorNote)
        ensures
            r.kind == GraphQLErrorNoteKind::Help,
            r.message == message,
            r.span is None,
    {
        GraphQLErrorNote { kind: GraphQLErrorNoteKind::Help, message, span: None }
    }

    /// Creates a help note with a span.
    pub fn help_with_span(message: String, span: SourceSpan) -> (r: GraphQLErrorNote)
        ensures
            r.kind == GraphQLErrorNoteKind::Help,
            r.message == message,
            r.span == Some(span),
    {
        GraphQLErrorNote { kind: GraphQLErrorNoteKind::Help, message, span: Some(span) }
    }

    /// Creates a spec reference note.
    pub fn spec(url: String) -> (r: GraphQLErrorNote)
        ensures
            r.kind == GraphQLErrorNoteKind::Spec,
            r.message == url,
            r.span is None,
    {
        GraphQLErrorNote { kind: GraphQLErrorNoteKind::Spec, message: url, span: None }
    }
}

} // verus!
