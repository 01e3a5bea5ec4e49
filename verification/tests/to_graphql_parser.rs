use libgraphql_parser::ast;
use libgraphql_parser::compat_graphql_parser_v0_4::description_to_gp;
use libgraphql_parser::compat_graphql_parser_v0_4::directive_to_gp;
use libgraphql_parser::compat_graphql_parser_v0_4::enum_value_def_to_gp;
use libgraphql_parser::compat_graphql_parser_v0_4::field_def_to_gp;
use libgraphql_parser::compat_graphql_parser_v0_4::gp;
use libgraphql_parser::compat_graphql_parser_v0_4::input_value_def_to_gp;
use libgraphql_parser::compat_graphql_parser_v0_4::to_graphql_parser_query_ast;
use libgraphql_parser::compat_graphql_parser_v0_4::to_graphql_parser_schema_ast;
use libgraphql_parser::compat_graphql_parser_v0_4::type_annotation_to_gp;
use libgraphql_parser::compat_graphql_parser_v0_4::value_to_gp;
use libgraphql_parser::GraphQLParseErrorKind;
use libgraphql_parser::GraphQLSourceSpan;
use libgraphql_parser::SourcePosition;

fn pos(line: usize, column: usize) -> gp::Pos {
    gp::Pos { line, column }
}

fn make_span(line: usize, col: usize) -> GraphQLSourceSpan {
    let p = SourcePosition::new(line, col, None, 0);
    GraphQLSourceSpan::new(p, p)
}

fn zero_span() -> GraphQLSourceSpan {
    make_span(0, 0)
}

fn make_name(value: &str, start: usize, end: usize) -> ast::Name {
    ast::Name {
        value: value.to_string(),
        span: GraphQLSourceSpan::new(
            SourcePosition::new(0, start, None, start),
            SourcePosition::new(0, end, None, end),
        ),
    }
}

fn string_value(s: &str) -> ast::StringValue {
    ast::StringValue { is_block: false, span: zero_span(), syntax: None, value: s.to_string() }
}

fn int_value(v: i32) -> ast::Value {
    ast::Value::Int(ast::IntValue { span: zero_span(), syntax: None, value: v })
}

fn named_type(name: &str, len: usize, non_null: bool) -> ast::TypeAnnotation {
    ast::TypeAnnotation::Named(ast::NamedTypeAnnotation {
        name: make_name(name, 0, len),
        nullability: if non_null {
            ast::Nullability::NonNull { syntax: None }
        } else {
            ast::Nullability::Nullable
        },
        span: zero_span(),
    })
}

fn leaf_field(name: &str, len: usize, line: usize, col: usize) -> ast::Selection {
    ast::Selection::Field(ast::Field {
        alias: None,
        arguments: vec![],
        directives: vec![],
        name: make_name(name, 0, len),
        selection_set: None,
        span: make_span(line, col),
    })
}

fn empty_selection_set() -> ast::SelectionSet {
    ast::SelectionSet { selections: vec![], span: zero_span() }
}

fn operation(
    kind: ast::OperationKind,
    name: Option<ast::Name>,
    selection_set: ast::SelectionSet,
    span: GraphQLSourceSpan,
    variable_definitions: Vec<ast::VariableDefinition>,
) -> ast::Definition {
    ast::Definition::OperationDefinition(ast::OperationDefinition {
        description: None,
        directives: vec![],
        name,
        operation_kind: kind,
        selection_set,
        shorthand: false,
        span,
        variable_definitions,
    })
}

fn document(definitions: Vec<ast::Definition>) -> ast::Document {
    ast::Document { definitions, span: zero_span(), syntax: None }
}

// ── Schema documents ────────────────────────────────────────────────

#[test]
fn test_object_type_definition() {
    let doc = document(vec![ast::Definition::TypeDefinition(ast::TypeDefinition::Object(
        ast::ObjectTypeDefinition {
            description: Some(string_value("A user")),
            directives: vec![],
            fields: vec![ast::FieldDefinition {
                name: make_name("name", 0, 4),
                description: None,
                arguments: vec![],
                directives: vec![],
                field_type: named_type("String", 6, true),
                span: make_span(2, 2),
            }],
            implements: vec![make_name("Node", 0, 4)],
            name: make_name("User", 0, 4),
            span: make_span(1, 0),
        },
    ))]);

    let result = to_graphql_parser_schema_ast(&doc);
    assert!(result.is_ok());
    let gp_doc = result.into_valid_ast().unwrap();
    assert_eq!(gp_doc.definitions.len(), 1);

    match &gp_doc.definitions[0] {
        gp::SchemaDefinitionItem::TypeDefinition(gp::TypeDefinition::Object(obj)) => {
            assert_eq!(obj.position, pos(2, 1));
            assert_eq!(obj.name, "User");
            assert_eq!(obj.description, Some("A user".to_string()));
            assert_eq!(obj.implements_interfaces, vec!["Node".to_string()]);
            assert_eq!(obj.fields.len(), 1);
            assert_eq!(obj.fields[0].position, pos(3, 3));
            assert_eq!(obj.fields[0].name, "name");
        },
        other => panic!("Expected TypeDefinition::Object, got {:?}", other),
    }
}

#[test]
fn to_schema_tests_test_schema_definition() {
    let doc = document(vec![ast::Definition::SchemaDefinition(ast::SchemaDefinition {
        description: None,
        directives: vec![],
        root_operations: vec![
            ast::RootOperationTypeDefinition {
                named_type: make_name("Query", 0, 5),
                operation_kind: ast::OperationKind::Query,
                span: zero_span(),
            },
            ast::RootOperationTypeDefinition {
                named_type: make_name("Mutation", 0, 8),
                operation_kind: ast::OperationKind::Mutation,
                span: zero_span(),
            },
        ],
        span: make_span(3, 0),
    })]);

    let result = to_graphql_parser_schema_ast(&doc);
    assert!(result.is_ok());
    let gp_doc = result.into_valid_ast().unwrap();

    match &gp_doc.definitions[0] {
        gp::SchemaDefinitionItem::SchemaDefinition(sd) => {
            assert_eq!(sd.position, pos(4, 1));
            assert_eq!(sd.query, Some("Query".to_string()));
            assert_eq!(sd.mutation, Some("Mutation".to_string()));
            assert_eq!(sd.subscription, None);
        },
        other => panic!("Expected SchemaDefinition, got {:?}", other),
    }
}

#[test]
fn to_schema_tests_test_schema_extension_produces_error() {
    let doc = document(vec![ast::Definition::SchemaExtension(ast::SchemaExtension {
        directives: vec![],
        root_operations: vec![],
        span: make_span(5, 0),
    })]);

    let result = to_graphql_parser_schema_ast(&doc);
    assert!(result.has_errors());
    assert_eq!(result.errors().len(), 1);

    let err = &result.errors()[0];
    match err.kind() {
        GraphQLParseErrorKind::UnsupportedFeature { feature } => {
            assert_eq!(feature, "schema extension");
        },
        other => panic!("Expected UnsupportedFeature, got {:?}", other),
    }

    // Schema extension is dropped from output
    let gp_doc = result.into_ast();
    assert!(gp_doc.definitions.is_empty());
}

#[test]
fn test_scalar_and_enum() {
    let doc = document(vec![
        ast::Definition::TypeDefinition(ast::TypeDefinition::Scalar(ast::ScalarTypeDefinition {
            description: None,
            directives: vec![],
            name: make_name("DateTime", 0, 8),
            span: make_span(0, 0),
        })),
        ast::Definition::TypeDefinition(ast::TypeDefinition::Enum(ast::EnumTypeDefinition {
            description: None,
            directives: vec![],
            name: make_name("Status", 0, 6),
            span: make_span(2, 0),
            values: vec![
                ast::EnumValueDefinition {
                    description: None,
                    directives: vec![],
                    name: make_name("ACTIVE", 0, 6),
                    span: make_span(3, 2),
                },
                ast::EnumValueDefinition {
                    description: None,
                    directives: vec![],
                    name: make_name("INACTIVE", 0, 8),
                    span: make_span(4, 2),
                },
            ],
        })),
    ]);

    let result = to_graphql_parser_schema_ast(&doc);
    assert!(result.is_ok());
    let gp_doc = result.into_valid_ast().unwrap();
    assert_eq!(gp_doc.definitions.len(), 2);

    match &gp_doc.definitions[0] {
        gp::SchemaDefinitionItem::TypeDefinition(gp::TypeDefinition::Scalar(s)) => {
            assert_eq!(s.position, pos(1, 1));
            assert_eq!(s.name, "DateTime");
        },
        other => panic!("Expected Scalar, got {:?}", other),
    }

    match &gp_doc.definitions[1] {
        gp::SchemaDefinitionItem::TypeDefinition(gp::TypeDefinition::Enum(e)) => {
            assert_eq!(e.position, pos(3, 1));
            assert_eq!(e.name, "Status");
            assert_eq!(e.values.len(), 2);
            assert_eq!(e.values[0].position, pos(4, 3));
            assert_eq!(e.values[0].name, "ACTIVE");
            assert_eq!(e.values[1].position, pos(5, 3));
            assert_eq!(e.values[1].name, "INACTIVE");
        },
        other => panic!("Expected Enum, got {:?}", other),
    }
}

#[test]
fn to_schema_tests_test_type_extension() {
    let doc = document(vec![ast::Definition::TypeExtension(ast::TypeExtension::Object(
        ast::ObjectTypeExtension {
            directives: vec![],
            fields: vec![ast::FieldDefinition {
                name: make_name("age", 0, 3),
                description: None,
                arguments: vec![],
                directives: vec![],
                field_type: named_type("Int", 3, false),
                span: make_span(1, 2),
            }],
            implements: vec![],
            name: make_name("User", 0, 4),
            span: make_span(0, 0),
        },
    ))]);

    let result = to_graphql_parser_schema_ast(&doc);
    assert!(result.is_ok());
    let gp_doc = result.into_valid_ast().unwrap();

    match &gp_doc.definitions[0] {
        gp::SchemaDefinitionItem::TypeExtension(gp::TypeExtension::Object(ext)) => {
            assert_eq!(ext.position, pos(1, 1));
            assert_eq!(ext.name, "User");
            assert_eq!(ext.fields.len(), 1);
            assert_eq!(ext.fields[0].position, pos(2, 3));
            assert_eq!(ext.fields[0].name, "age");
        },
        other => panic!("Expected TypeExtension::Object, got {:?}", other),
    }
}

#[test]
fn test_executable_defs_skipped() {
    let doc = document(vec![operation(
        ast::OperationKind::Query,
        None,
        empty_selection_set(),
        zero_span(),
        vec![],
    )]);

    let result = to_graphql_parser_schema_ast(&doc);
    assert!(result.is_ok());
    let gp_doc = result.into_valid_ast().unwrap();
    assert!(gp_doc.definitions.is_empty());
}

#[test]
fn to_schema_tests_test_directive_definition() {
    let doc = document(vec![ast::Definition::DirectiveDefinition(ast::DirectiveDefinition {
        arguments: vec![],
        description: Some(string_value("Mark as cached")),
        locations: vec![
            ast::DirectiveLocation {
                kind: ast::DirectiveLocationKind::FieldDefinition,
                span: zero_span(),
            },
            ast::DirectiveLocation { kind: ast::DirectiveLocationKind::Object, span: zero_span() },
        ],
        name: make_name("cached", 0, 6),
        repeatable: true,
        span: make_span(6, 0),
    })]);

    let result = to_graphql_parser_schema_ast(&doc);
    assert!(result.is_ok());
    let gp_doc = result.into_valid_ast().unwrap();

    match &gp_doc.definitions[0] {
        gp::SchemaDefinitionItem::DirectiveDefinition(dd) => {
            assert_eq!(dd.position, pos(7, 1));
            assert_eq!(dd.name, "cached");
            assert_eq!(dd.description, Some("Mark as cached".to_string()));
            assert!(dd.repeatable);
            assert_eq!(dd.locations.len(), 2);
            assert_eq!(dd.locations[0], gp::DirectiveLocation::FieldDefinition);
            assert_eq!(dd.locations[1], gp::DirectiveLocation::Object);
        },
        other => panic!("Expected DirectiveDefinition, got {:?}", other),
    }
}

// ── Query documents ─────────────────────────────────────────────────

#[test]
fn to_query_tests_test_shorthand_query() {
    let doc = document(vec![operation(
        ast::OperationKind::Query,
        None,
        ast::SelectionSet { selections: vec![leaf_field("viewer", 6, 1, 2)], span: make_span(0, 0) },
        zero_span(),
        vec![],
    )]);

    let result = to_graphql_parser_query_ast(&doc);
    assert!(result.is_ok());
    let gp_doc = result.into_valid_ast().unwrap();
    assert_eq!(gp_doc.definitions.len(), 1);

    match &gp_doc.definitions[0] {
        gp::QueryDefinition::Operation(gp::OperationDefinition::SelectionSet(ss)) => {
            assert_eq!(ss.span, (pos(1, 1), pos(1, 1)));
            assert_eq!(ss.items.len(), 1);
            match &ss.items[0] {
                gp::Selection::Field(field) => {
                    assert_eq!(field.position, pos(2, 3));
                    assert_eq!(field.name, "viewer");
                    assert!(field.alias.is_none());
                },
                other => panic!("Expected Field, got {other:?}"),
            }
        },
        other => panic!("Expected SelectionSet, got {other:?}"),
    }
}

#[test]
fn to_query_tests_test_named_query_with_variables() {
    let doc = document(vec![operation(
        ast::OperationKind::Query,
        Some(make_name("GetUser", 0, 7)),
        empty_selection_set(),
        make_span(0, 0),
        vec![ast::VariableDefinition {
            default_value: None,
            description: None,
            directives: vec![],
            span: make_span(0, 14),
            syntax: None,
            var_type: named_type("ID", 2, true),
            variable: make_name("id", 0, 2),
        }],
    )]);

    let result = to_graphql_parser_query_ast(&doc);
    assert!(result.is_ok());
    let gp_doc = result.into_valid_ast().unwrap();

    match &gp_doc.definitions[0] {
        gp::QueryDefinition::Operation(gp::OperationDefinition::Query(query)) => {
            assert_eq!(query.position, pos(1, 1));
            assert_eq!(query.name, Some("GetUser".to_string()));
            assert_eq!(query.variable_definitions.len(), 1);
            let var_def = &query.variable_definitions[0];
            assert_eq!(var_def.position, pos(1, 15));
            assert_eq!(var_def.name, "id");
            assert_eq!(
                var_def.var_type,
                gp::Type::NonNullType(Box::new(gp::Type::NamedType("ID".to_string()))),
            );
        },
        other => panic!("Expected Query, got {other:?}"),
    }
}

#[test]
fn to_query_tests_test_mutation() {
    let doc = document(vec![operation(
        ast::OperationKind::Mutation,
        Some(make_name("CreateUser", 0, 10)),
        empty_selection_set(),
        make_span(2, 0),
        vec![],
    )]);

    let result = to_graphql_parser_query_ast(&doc);
    assert!(result.is_ok());
    let gp_doc = result.into_valid_ast().unwrap();

    match &gp_doc.definitions[0] {
        gp::QueryDefinition::Operation(gp::OperationDefinition::Mutation(mutation)) => {
            assert_eq!(mutation.position, pos(3, 1));
            assert_eq!(mutation.name, Some("CreateUser".to_string()));
        },
        other => panic!("Expected Mutation, got {other:?}"),
    }
}

#[test]
fn to_query_tests_test_subscription() {
    let doc = document(vec![operation(
        ast::OperationKind::Subscription,
        Some(make_name("OnMessage", 0, 9)),
        empty_selection_set(),
        make_span(4, 0),
        vec![],
    )]);

    let result = to_graphql_parser_query_ast(&doc);
    assert!(result.is_ok());
    let gp_doc = result.into_valid_ast().unwrap();

    match &gp_doc.definitions[0] {
        gp::QueryDefinition::Operation(gp::OperationDefinition::Subscription(sub)) => {
            assert_eq!(sub.position, pos(5, 1));
            assert_eq!(sub.name, Some("OnMessage".to_string()));
        },
        other => panic!("Expected Subscription, got {other:?}"),
    }
}

#[test]
fn to_query_tests_test_fragment_definition() {
    let doc = document(vec![ast::Definition::FragmentDefinition(ast::FragmentDefinition {
        description: None,
        directives: vec![],
        name: make_name("UserFields", 0, 10),
        selection_set: ast::SelectionSet {
            selections: vec![leaf_field("name", 4, 1, 2)],
            span: make_span(0, 28),
        },
        span: make_span(0, 0),
        type_condition: ast::TypeCondition { named_type: make_name("User", 0, 4), span: zero_span() },
    })]);

    let result = to_graphql_parser_query_ast(&doc);
    assert!(result.is_ok());
    let gp_doc = result.into_valid_ast().unwrap();

    match &gp_doc.definitions[0] {
        gp::QueryDefinition::Fragment(frag) => {
            assert_eq!(frag.position, pos(1, 1));
            assert_eq!(frag.name, "UserFields");
            assert_eq!(frag.type_condition, gp::TypeCondition::On("User".to_string()));
            assert_eq!(frag.selection_set.items.len(), 1);
            match &frag.selection_set.items[0] {
                gp::Selection::Field(field) => {
                    assert_eq!(field.position, pos(2, 3));
                    assert_eq!(field.name, "name");
                },
                other => panic!("Expected Field, got {other:?}"),
            }
        },
        other => panic!("Expected Fragment, got {other:?}"),
    }
}

#[test]
fn to_query_tests_test_field_with_alias_and_args() {
    let doc = document(vec![operation(
        ast::OperationKind::Query,
        Some(make_name("Q", 0, 1)),
        ast::SelectionSet {
            selections: vec![ast::Selection::Field(ast::Field {
                alias: Some(make_name("hero", 0, 4)),
                arguments: vec![ast::Argument {
                    name: make_name("episode", 0, 7),
                    span: zero_span(),
                    value: ast::Value::Enum(ast::EnumValue {
                        span: zero_span(),
                        syntax: None,
                        value: "JEDI".to_string(),
                    }),
                }],
                directives: vec![],
                name: make_name("character", 0, 9),
                selection_set: Some(ast::SelectionSet {
                    selections: vec![leaf_field("name", 4, 2, 4)],
                    span: make_span(1, 31),
                }),
                span: make_span(1, 2),
            })],
            span: make_span(0, 8),
        },
        make_span(0, 0),
        vec![],
    )]);

    let result = to_graphql_parser_query_ast(&doc);
    assert!(result.is_ok());
    let gp_doc = result.into_valid_ast().unwrap();

    match &gp_doc.definitions[0] {
        gp::QueryDefinition::Operation(gp::OperationDefinition::Query(query)) => {
            assert_eq!(query.position, pos(1, 1));
            assert_eq!(query.selection_set.items.len(), 1);
            match &query.selection_set.items[0] {
                gp::Selection::Field(field) => {
                    assert_eq!(field.position, pos(2, 3));
                    assert_eq!(field.alias, Some("hero".to_string()));
                    assert_eq!(field.name, "character");
                    assert_eq!(field.arguments.len(), 1);
                    assert_eq!(field.arguments[0].0, "episode");
                    assert_eq!(field.arguments[0].1, gp::Value::Enum("JEDI".to_string()));
                    assert_eq!(field.selection_set.items.len(), 1);
                    match &field.selection_set.items[0] {
                        gp::Selection::Field(nested) => {
                            assert_eq!(nested.position, pos(3, 5));
                            assert_eq!(nested.name, "name");
                        },
                        other => panic!("Expected nested Field, got {other:?}"),
                    }
                },
                other => panic!("Expected Field, got {other:?}"),
            }
        },
        other => panic!("Expected Query, got {other:?}"),
    }
}

#[test]
fn to_query_tests_test_fragment_spread_and_inline_fragment() {
    let doc = document(vec![operation(
        ast::OperationKind::Query,
        Some(make_name("Q", 0, 1)),
        ast::SelectionSet {
            selections: vec![
                ast::Selection::FragmentSpread(ast::FragmentSpread {
                    directives: vec![],
                    name: make_name("UserFields", 0, 10),
                    span: make_span(1, 2),
                }),
                ast::Selection::InlineFragment(ast::InlineFragment {
                    directives: vec![],
                    selection_set: ast::SelectionSet {
                        selections: vec![leaf_field("age", 3, 3, 4)],
                        span: make_span(2, 20),
                    },
                    span: make_span(2, 2),
                    type_condition: Some(ast::TypeCondition {
                        named_type: make_name("Admin", 0, 5),
                        span: zero_span(),
                    }),
                }),
            ],
            span: make_span(0, 8),
        },
        make_span(0, 0),
        vec![],
    )]);

    let result = to_graphql_parser_query_ast(&doc);
    assert!(result.is_ok());
    let gp_doc = result.into_valid_ast().unwrap();

    match &gp_doc.definitions[0] {
        gp::QueryDefinition::Operation(gp::OperationDefinition::Query(query)) => {
            assert_eq!(query.selection_set.items.len(), 2);
            match &query.selection_set.items[0] {
                gp::Selection::FragmentSpread(frag_spread) => {
                    assert_eq!(frag_spread.position, pos(2, 3));
                    assert_eq!(frag_spread.fragment_name, "UserFields");
                },
                other => panic!("Expected FragmentSpread, got {other:?}"),
            }
            match &query.selection_set.items[1] {
                gp::Selection::InlineFragment(inline_frag) => {
                    assert_eq!(inline_frag.position, pos(3, 3));
                    assert_eq!(
                        inline_frag.type_condition,
                        Some(gp::TypeCondition::On("Admin".to_string())),
                    );
                    assert_eq!(inline_frag.selection_set.items.len(), 1);
                    match &inline_frag.selection_set.items[0] {
                        gp::Selection::Field(field) => {
                            assert_eq!(field.position, pos(4, 5));
                            assert_eq!(field.name, "age");
                        },
                        other => panic!("Expected Field, got {other:?}"),
                    }
                },
                other => panic!("Expected InlineFragment, got {other:?}"),
            }
        },
        other => panic!("Expected Query, got {other:?}"),
    }
}

#[test]
fn to_query_tests_test_variable_directives_produce_error() {
    let doc = document(vec![operation(
        ast::OperationKind::Query,
        Some(make_name("Q", 0, 1)),
        empty_selection_set(),
        zero_span(),
        vec![ast::VariableDefinition {
            default_value: None,
            description: None,
            directives: vec![ast::DirectiveAnnotation {
                name: make_name("deprecated", 0, 10),
                span: zero_span(),
                arguments: vec![],
            }],
            span: zero_span(),
            syntax: None,
            var_type: named_type("Int", 3, false),
            variable: make_name("x", 0, 1),
        }],
    )]);

    let result = to_graphql_parser_query_ast(&doc);
    assert!(result.has_errors());
    assert_eq!(result.errors().len(), 1);
    match result.errors()[0].kind() {
        GraphQLParseErrorKind::UnsupportedFeature { feature } => {
            assert_eq!(feature, "variable directives");
        },
        other => panic!("Expected UnsupportedFeature, got {other:?}"),
    }
}

#[test]
fn test_type_system_defs_skipped() {
    let doc = document(vec![ast::Definition::TypeDefinition(ast::TypeDefinition::Scalar(
        ast::ScalarTypeDefinition {
            description: None,
            directives: vec![],
            name: make_name("DateTime", 0, 8),
            span: zero_span(),
        },
    ))]);

    let result = to_graphql_parser_query_ast(&doc);
    assert!(result.is_ok());
    let gp_doc = result.into_valid_ast().unwrap();
    assert!(gp_doc.definitions.is_empty());
}

// ── Type annotations ────────────────────────────────────────────────

#[test]
fn test_type_annotation_to_gp_nullable_named() {
    let lg_type = named_type("String", 6, false);
    assert_eq!(type_annotation_to_gp(&lg_type), gp::Type::NamedType("String".to_string()));
}

#[test]
fn test_type_annotation_to_gp_non_null_named() {
    let lg_type = named_type("String", 6, true);
    assert_eq!(
        type_annotation_to_gp(&lg_type),
        gp::Type::NonNullType(Box::new(gp::Type::NamedType("String".to_string()))),
    );
}

#[test]
fn test_type_annotation_to_gp_nullable_list() {
    let lg_type = ast::TypeAnnotation::List(ast::ListTypeAnnotation {
        element_type: Box::new(named_type("String", 6, true)),
        nullability: ast::Nullability::Nullable,
        span: zero_span(),
    });
    assert_eq!(
        type_annotation_to_gp(&lg_type),
        gp::Type::ListType(Box::new(gp::Type::NonNullType(Box::new(gp::Type::NamedType(
            "String".to_string()
        ))))),
    );
}

#[test]
fn test_type_annotation_to_gp_non_null_list() {
    let lg_type = ast::TypeAnnotation::List(ast::ListTypeAnnotation {
        element_type: Box::new(named_type("String", 6, true)),
        nullability: ast::Nullability::NonNull { syntax: None },
        span: zero_span(),
    });
    assert_eq!(
        type_annotation_to_gp(&lg_type),
        gp::Type::NonNullType(Box::new(gp::Type::ListType(Box::new(gp::Type::NonNullType(
            Box::new(gp::Type::NamedType("String".to_string()))
        ))))),
    );
}

// ── Values ──────────────────────────────────────────────────────────

#[test]
fn test_value_to_graphql_parser_int() {
    let lg_val = int_value(42);
    assert_eq!(value_to_gp(&lg_val), gp::Value::Int(42));
}

#[test]
fn test_value_to_graphql_parser_float() {
    let lg_val = ast::Value::Float(ast::FloatValue {
        span: zero_span(),
        syntax: None,
        value: 3.14f64.to_string(),
    });
    let gp_val = value_to_gp(&lg_val);
    match gp_val {
        gp::Value::Float(text) => assert_eq!(text.parse::<f64>().unwrap(), 3.14),
        other => panic!("Expected Float, got {other:?}"),
    }
}

#[test]
fn test_value_to_graphql_parser_string() {
    let lg_val = ast::Value::String(string_value("hello"));
    assert_eq!(value_to_gp(&lg_val), gp::Value::String("hello".to_string()));
}

#[test]
fn test_value_to_graphql_parser_boolean() {
    let lg_true = ast::Value::Boolean(ast::BooleanValue { span: zero_span(), syntax: None, value: true });
    assert_eq!(value_to_gp(&lg_true), gp::Value::Boolean(true));
    let lg_false =
        ast::Value::Boolean(ast::BooleanValue { span: zero_span(), syntax: None, value: false });
    assert_eq!(value_to_gp(&lg_false), gp::Value::Boolean(false));
}

#[test]
fn test_value_to_graphql_parser_null() {
    let lg_val = ast::Value::Null(ast::NullValue { span: zero_span(), syntax: None });
    assert_eq!(value_to_gp(&lg_val), gp::Value::Null);
}

#[test]
fn test_value_to_graphql_parser_enum() {
    let lg_val =
        ast::Value::Enum(ast::EnumValue { span: zero_span(), syntax: None, value: "ACTIVE".to_string() });
    assert_eq!(value_to_gp(&lg_val), gp::Value::Enum("ACTIVE".to_string()));
}

#[test]
fn test_value_to_graphql_parser_variable() {
    let lg_val = ast::Value::Variable(ast::VariableValue {
        name: make_name("userId", 0, 6),
        span: zero_span(),
        syntax: None,
    });
    assert_eq!(value_to_gp(&lg_val), gp::Value::Variable("userId".to_string()));
}

#[test]
fn test_value_to_graphql_parser_list() {
    let lg_val = ast::Value::List(ast::ListValue {
        span: zero_span(),
        syntax: None,
        values: vec![
            int_value(1),
            ast::Value::Null(ast::NullValue { span: zero_span(), syntax: None }),
            ast::Value::String(string_value("two")),
        ],
    });
    assert_eq!(
        value_to_gp(&lg_val),
        gp::Value::List(vec![gp::Value::Int(1), gp::Value::Null, gp::Value::String("two".to_string())]),
    );
}

#[test]
fn test_value_to_graphql_parser_object() {
    // Fields intentionally in non-alphabetical order
    let lg_val = ast::Value::Object(ast::ObjectValue {
        span: zero_span(),
        syntax: None,
        fields: vec![
            ast::ObjectField {
                name: make_name("z_last", 0, 6),
                span: zero_span(),
                syntax: None,
                value: int_value(1),
            },
            ast::ObjectField {
                name: make_name("a_first", 0, 7),
                span: zero_span(),
                syntax: None,
                value: int_value(2),
            },
        ],
    });
    // Keys come out in increasing order
    assert_eq!(
        value_to_gp(&lg_val),
        gp::Value::Object(vec![
            ("a_first".to_string(), gp::Value::Int(2)),
            ("z_last".to_string(), gp::Value::Int(1)),
        ]),
    );
}

#[test]
fn value_to_gp_later_field_replaces_earlier() {
    let field = |name: &str, v: i32| ast::ObjectField {
        name: make_name(name, 0, name.len()),
        span: zero_span(),
        syntax: None,
        value: int_value(v),
    };
    let lg_val = ast::Value::Object(ast::ObjectValue {
        span: zero_span(),
        syntax: None,
        fields: vec![field("b", 1), field("a", 2), field("b", 3)],
    });
    assert_eq!(
        value_to_gp(&lg_val),
        gp::Value::Object(vec![("a".to_string(), gp::Value::Int(2)), ("b".to_string(), gp::Value::Int(3))]),
    );
}

#[test]
fn value_to_gp_object_keys_in_byte_order() {
    let field = |name: &str| ast::ObjectField {
        name: make_name(name, 0, name.len()),
        span: zero_span(),
        syntax: None,
        value: ast::Value::Null(ast::NullValue { span: zero_span(), syntax: None }),
    };
    let lg_val = ast::Value::Object(ast::ObjectValue {
        span: zero_span(),
        syntax: None,
        fields: vec![field("b"), field("ab"), field("B"), field("a"), field("é")],
    });
    let keys: Vec<String> = match value_to_gp(&lg_val) {
        gp::Value::Object(es) => es.into_iter().map(|(k, _)| k).collect(),
        other => panic!("Expected Object, got {other:?}"),
    };
    assert_eq!(keys, vec!["B", "a", "ab", "b", "é"]);
}

// ── Sub-nodes ───────────────────────────────────────────────────────

#[test]
fn test_directive_to_gp_with_args() {
    let lg_dir = ast::DirectiveAnnotation {
        name: make_name("deprecated", 0, 10),
        span: make_span(5, 2),
        arguments: vec![ast::Argument {
            name: make_name("reason", 0, 6),
            span: zero_span(),
            value: ast::Value::String(string_value("Use newField")),
        }],
    };
    let gp_dir = directive_to_gp(&lg_dir);
    assert_eq!(gp_dir.position, pos(6, 3));
    assert_eq!(gp_dir.name, "deprecated");
    assert_eq!(gp_dir.arguments.len(), 1);
    assert_eq!(gp_dir.arguments[0].0, "reason");
    assert_eq!(gp_dir.arguments[0].1, gp::Value::String("Use newField".to_string()));
}

#[test]
fn test_directive_to_gp_no_args() {
    let lg_dir = ast::DirectiveAnnotation { name: make_name("skip", 0, 4), span: make_span(1, 4), arguments: vec![] };
    let gp_dir = directive_to_gp(&lg_dir);
    assert_eq!(gp_dir.position, pos(2, 5));
    assert_eq!(gp_dir.name, "skip");
    assert!(gp_dir.arguments.is_empty());
}

#[test]
fn test_description_to_gp() {
    let some_desc = Some(string_value("A description"));
    assert_eq!(description_to_gp(&some_desc), Some("A description".to_string()));
    assert_eq!(description_to_gp(&None), None);
}

#[test]
fn test_input_value_def_to_gp() {
    let lg_ivd = ast::InputValueDefinition {
        name: make_name("limit", 0, 5),
        description: None,
        directives: vec![],
        default_value: Some(int_value(10)),
        span: make_span(3, 4),
        value_type: named_type("Int", 3, false),
    };
    let gp_iv = input_value_def_to_gp(&lg_ivd);
    assert_eq!(gp_iv.position, pos(4, 5));
    assert_eq!(gp_iv.name, "limit");
    assert_eq!(gp_iv.value_type, gp::Type::NamedType("Int".to_string()));
    assert_eq!(gp_iv.default_value, Some(gp::Value::Int(10)));
}

#[test]
fn test_field_def_to_gp() {
    let lg_fd = ast::FieldDefinition {
        name: make_name("users", 0, 5),
        description: Some(string_value("List users")),
        arguments: vec![ast::InputValueDefinition {
            name: make_name("first", 0, 5),
            description: None,
            directives: vec![],
            default_value: None,
            span: zero_span(),
            value_type: named_type("Int", 3, false),
        }],
        directives: vec![],
        field_type: named_type("User", 4, true),
        span: make_span(7, 2),
    };
    let gp_field = field_def_to_gp(&lg_fd);
    assert_eq!(gp_field.position, pos(8, 3));
    assert_eq!(gp_field.name, "users");
    assert_eq!(gp_field.description, Some("List users".to_string()));
    assert_eq!(gp_field.arguments.len(), 1);
    assert_eq!(gp_field.arguments[0].name, "first");
    assert_eq!(
        gp_field.field_type,
        gp::Type::NonNullType(Box::new(gp::Type::NamedType("User".to_string()))),
    );
}

#[test]
fn test_enum_value_def_to_gp() {
    let lg_evd = ast::EnumValueDefinition {
        name: make_name("ACTIVE", 0, 6),
        description: Some(string_value("Active status")),
        directives: vec![ast::DirectiveAnnotation {
            name: make_name("deprecated", 0, 10),
            span: zero_span(),
            arguments: vec![],
        }],
        span: make_span(9, 4),
    };
    let gp_ev = enum_value_def_to_gp(&lg_evd);
    assert_eq!(gp_ev.position, pos(10, 5));
    assert_eq!(gp_ev.name, "ACTIVE");
    assert_eq!(gp_ev.description, Some("Active status".to_string()));
    assert_eq!(gp_ev.directives.len(), 1);
    assert_eq!(gp_ev.directives[0].name, "deprecated");
}

#[test]
fn schema_def_later_root_operation_wins() {
    let root = |name: &str, kind: ast::OperationKind| ast::RootOperationTypeDefinition {
        named_type: make_name(name, 0, name.len()),
        operation_kind: kind,
        span: zero_span(),
    };
    let doc = document(vec![ast::Definition::SchemaDefinition(ast::SchemaDefinition {
        description: None,
        directives: vec![],
        root_operations: vec![
            root("Q1", ast::OperationKind::Query),
            root("S", ast::OperationKind::Subscription),
            root("Q2", ast::OperationKind::Query),
        ],
        span: zero_span(),
    })]);
    let gp_doc = to_graphql_parser_schema_ast(&doc).into_ast();
    match &gp_doc.definitions[0] {
        gp::SchemaDefinitionItem::SchemaDefinition(sd) => {
            assert_eq!(sd.query, Some("Q2".to_string()));
            assert_eq!(sd.mutation, None);
            assert_eq!(sd.subscription, Some("S".to_string()));
        },
        other => panic!("Expected SchemaDefinition, got {other:?}"),
    }
}

#[test]
fn schema_extension_error_message_and_span() {
    let doc = document(vec![ast::Definition::SchemaExtension(ast::SchemaExtension {
        directives: vec![],
        root_operations: vec![],
        span: make_span(5, 3),
    })]);
    let result = to_graphql_parser_schema_ast(&doc);
    assert!(!result.is_ok());
    let err = &result.errors()[0];
    assert_eq!(err.message(), "Schema extensions cannot be represented in graphql_parser v0.4 AST");
    assert_eq!(err.source_span().start_inclusive.line(), 5);
    assert_eq!(err.source_span().start_inclusive.col_utf8(), 3);
}

#[test]
fn query_leaf_field_gets_empty_selection_set_at_field() {
    let doc = document(vec![operation(
        ast::OperationKind::Query,
        Some(make_name("Q", 0, 1)),
        ast::SelectionSet { selections: vec![leaf_field("a", 1, 2, 6)], span: make_span(1, 0) },
        zero_span(),
        vec![],
    )]);
    let gp_doc = to_graphql_parser_query_ast(&doc).into_ast();
    match &gp_doc.definitions[0] {
        gp::QueryDefinition::Operation(gp::OperationDefinition::Query(q)) => match &q.selection_set.items[0] {
            gp::Selection::Field(f) => {
                assert_eq!(f.selection_set.span, (pos(3, 7), pos(3, 7)));
                assert!(f.selection_set.items.is_empty());
            },
            other => panic!("Expected Field, got {other:?}"),
        },
        other => panic!("Expected Query, got {other:?}"),
    }
}
