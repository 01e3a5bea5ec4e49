use vstd::prelude::*;

verus! {

/// Configuration for the GraphQL parser.
#[derive(Clone, Debug, PartialEq)]
pub struct GraphQLParserConfig {
    /// Whether the parser should populate `*Syntax` structs on AST nodes
    /// with the concrete tokens that make up each construct.
    pub retain_syntax: bool,
}

impl GraphQLParserConfig {
    /// Returns a lean config that skips populating syntax structs.
    pub fn lean() -> (r: GraphQLParserConfig)
        ensures
            !r.retain_syntax,
    {
        GraphQLParserConfig { retain_syntax: false }
    }
}

impl Default for GraphQLParserConfig {
    fn default() -> (r: GraphQLParserConfig)
        ensures
            r.retain_syntax,
    {
        GraphQLParserConfig { retain_syntax: true }
    }
}

} // verus!
