use vstd::prelude::*;

verus! {

/// The kind of an error note (determines how the note is rendered).
#[derive(Debug, Clone, Copy, PartialEq, Eq)]
pub enum GraphQLErrorNoteKind {
    /// General context or explanation about the error (`= note: ...`).
    General,
    /// Actionable suggestion for fixing the error (`= help: ...`).
    Help,
    /// Reference to the GraphQL specification (`= spec: ...`).
    Spec,
}

} // verus!
