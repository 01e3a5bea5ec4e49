use vstd::prelude::*;

verus! {

/// Contexts where certain names are reserved in GraphQL.
#[derive(Debug, Clone, Copy, PartialEq, Eq)]
pub enum ReservedNameContext {
    /// Fragment names cannot be `on`.
    FragmentName,
    /// Enum values cannot be `true`, `false`, or `null`.
    EnumValue,
}

} // verus!
