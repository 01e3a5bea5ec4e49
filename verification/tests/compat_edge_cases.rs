//! Compat-layer behavior that a ground-truth comparison cannot cover:
//! constructs that `graphql_parser` v0.4 cannot represent, and filtering of
//! mixed documents. Each test parses with this crate and checks what the
//! conversion reports or keeps.

use libgraphql_parser::compat_graphql_parser_v0_4::gp;
use libgraphql_parser::compat_graphql_parser_v0_4::to_graphql_parser_query_ast;
use libgraphql_parser::compat_graphql_parser_v0_4::to_graphql_parser_schema_ast;
use libgraphql_parser::GraphQLParseErrorKind;
use libgraphql_parser::GraphQLParser;

/// A schema extension yields an `UnsupportedFeature` error and is left out
/// of the converted document.
#[test]
fn compat_layer_edge_case_tests_test_schema_extension_produces_error() {
    let our_ast = GraphQLParser::new("extend schema @auth { query: Query }").parse_schema_document();
    assert!(!our_ast.has_errors(), "Our parser should accept schema extensions");
    let doc = our_ast.into_valid_ast().unwrap();

    let result = to_graphql_parser_schema_ast(&doc);
    assert!(result.has_errors());
    assert_eq!(result.errors().len(), 1);
    match result.errors()[0].kind() {
        GraphQLParseErrorKind::UnsupportedFeature { feature } => {
            assert_eq!(feature, "schema extension");
        },
        other => panic!("Expected UnsupportedFeature, got {other:?}"),
    }
    let gp_doc = result.into_ast();
    assert!(gp_doc.definitions.is_empty());
}

/// A variable definition with directives yields an `UnsupportedFeature`
/// error.
#[test]
fn compat_layer_edge_case_tests_test_variable_directives_produce_error() {
    let our_ast = GraphQLParser::new("query Q($x: Int @deprecated) { field }").parse_executable_document();
    assert!(!our_ast.has_errors(), "Our parser should accept variable directives");
    let doc = our_ast.into_valid_ast().unwrap();

    let result = to_graphql_parser_query_ast(&doc);
    assert!(result.has_errors());
    assert_eq!(result.errors().len(), 1);
    match result.errors()[0].kind() {
        GraphQLParseErrorKind::UnsupportedFeature { feature } => {
            assert_eq!(feature, "variable directives");
        },
        other => panic!("Expected UnsupportedFeature, got {other:?}"),
    }
}

/// A type extension is positioned at its type keyword, however much space
/// follows `extend`.
#[test]
fn test_type_extension_position_with_extra_whitespace() {
    // "type" starts at column 9 (1-indexed).
    let source = "extend  type Foo";
    let our_ast = GraphQLParser::new(source).parse_schema_document();
    assert!(
        !our_ast.has_errors(),
        "Our parser should accept type extensions with extra whitespace: {:?}",
        our_ast.errors(),
    );
    let doc = our_ast.into_valid_ast().unwrap();

    let result = to_graphql_parser_schema_ast(&doc);
    let gp_doc = result.into_ast();
    assert_eq!(gp_doc.definitions.len(), 1, "Should have one type extension definition");
    let pos = match &gp_doc.definitions[0] {
        gp::SchemaDefinitionItem::TypeExtension(gp::TypeExtension::Object(ext)) => ext.position,
        other => panic!("Expected TypeExtension::Object, got {other:?}"),
    };
    assert_eq!(
        pos.column, 9,
        "Position should point to 'type' keyword at column 9. Got line={}, column={}",
        pos.line, pos.column,
    );
}

/// Executable definitions are left out of a schema conversion without
/// error.
#[test]
fn test_executable_defs_skipped_in_schema_conversion() {
    let our_ast = GraphQLParser::new("query Q { field }\n\ntype User { id: ID! }\n").parse_mixed_document();
    assert!(!our_ast.has_errors());
    let doc = our_ast.into_valid_ast().unwrap();

    let result = to_graphql_parser_schema_ast(&doc);
    assert!(!result.has_errors());
    let gp_doc = result.into_valid_ast().unwrap();
    assert_eq!(gp_doc.definitions.len(), 1);
    match &gp_doc.definitions[0] {
        gp::SchemaDefinitionItem::TypeDefinition(gp::TypeDefinition::Object(obj)) => {
            assert_eq!(obj.name, "User");
        },
        other => panic!("Expected TypeDefinition::Object(User), got {other:?}"),
    }
}

/// Type-system definitions are left out of a query conversion without
/// error.
#[test]
fn test_type_system_defs_skipped_in_query_conversion() {
    let our_ast = GraphQLParser::new("scalar DateTime\n\nquery Q { field }\n").parse_mixed_document();
    assert!(!our_ast.has_errors());
    let doc = our_ast.into_valid_ast().unwrap();

    let result = to_graphql_parser_query_ast(&doc);
    assert!(!result.has_errors());
    let gp_doc = result.into_valid_ast().unwrap();
    assert_eq!(gp_doc.definitions.len(), 1);
    match &gp_doc.definitions[0] {
        gp::QueryDefinition::Operation(gp::OperationDefinition::Query(q)) => {
            assert_eq!(q.name, Some("Q".to_string()));
        },
        other => panic!("Expected Operation::Query(Q), got {other:?}"),
    }
}
