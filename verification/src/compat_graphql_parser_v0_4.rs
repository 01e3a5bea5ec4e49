//! Compatibility layer between this crate's AST (`crate::ast`) and the
//! `graphql_parser` v0.4 AST.

pub mod from_gp_helpers;
pub mod from_query;
pub mod from_schema;
pub mod gp;
pub mod round_trip;
pub mod to_gp_helpers;
pub mod to_query;
pub mod to_schema;

pub use from_query::from_graphql_parser_query_ast;
pub use from_query::from_graphql_parser_query_ast_with_source;
pub use from_schema::from_graphql_parser_schema_ast;
pub use from_schema::from_graphql_parser_schema_ast_with_source;
pub use to_gp_helpers::description_to_gp;
pub use to_gp_helpers::directive_to_gp;
pub use to_gp_helpers::enum_value_def_to_gp;
pub use to_gp_helpers::field_def_to_gp;
pub use to_gp_helpers::input_value_def_to_gp;
pub use to_gp_helpers::type_annotation_to_gp;
pub use to_gp_helpers::value_to_gp;
pub use to_query::to_graphql_parser_query_ast;
pub use to_schema::to_graphql_parser_schema_ast;
