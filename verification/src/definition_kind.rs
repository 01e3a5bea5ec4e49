use vstd::prelude::*;

verus! {

/// The kind of definition found in a GraphQL document.
#[derive(Debug, Clone, Copy, PartialEq, Eq)]
pub enum DefinitionKind {
    /// `schema { ... }` or `extend schema { ... }`
    Schema,
    /// Type definitions (`type`, `interface`, `union`, `enum`, `scalar`,
    /// `input`) or their `extend` variants.
    TypeDefinition,
    /// `directive @name on ...`
    DirectiveDefinition,
    /// Operations: `query`, `mutation`, `subscription`, or anonymous `{ ... }`
    Operation,
    /// `fragment Name on Type { ... }`
    Fragment,
}

/// The kind of document being parsed.
#[derive(Debug, Clone, Copy, PartialEq, Eq)]
pub enum DocumentKind {
    /// Only type-system definitions are allowed.
    Schema,
    /// Only operations and fragments are allowed.
    Executable,
    /// Any definition is allowed.
    Mixed,
}

} // verus!
