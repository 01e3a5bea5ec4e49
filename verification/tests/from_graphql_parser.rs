use libgraphql_parser::ast;
use libgraphql_parser::compat_graphql_parser_v0_4::from_graphql_parser_query_ast;
use libgraphql_parser::compat_graphql_parser_v0_4::from_graphql_parser_query_ast_with_source;
use libgraphql_parser::compat_graphql_parser_v0_4::from_graphql_parser_schema_ast;
use libgraphql_parser::compat_graphql_parser_v0_4::from_graphql_parser_schema_ast_with_source;
use libgraphql_parser::compat_graphql_parser_v0_4::gp;


fn pos(line: usize, column: usize) -> graphql_parser::Pos {
    graphql_parser::Pos { line, column }
}

fn schema_doc(defs: Vec<RealSchemaItem<'static, String>>) -> gp::SchemaDocument {
    m_schema(&graphql_parser::schema::Document { definitions: defs })
}

fn doc_with(def: graphql_parser::query::Definition<'static, String>) -> gp::QueryDocument {
    m_query(&graphql_parser::query::Document { definitions: vec![def] })
}

fn empty_sel_set(start: graphql_parser::Pos) -> graphql_parser::query::SelectionSet<'static, String> {
    graphql_parser::query::SelectionSet { span: (start, start), items: vec![] }
}

fn sel_set_with_field(
    field_pos: graphql_parser::Pos,
    field_name: &str,
) -> graphql_parser::query::SelectionSet<'static, String> {
    graphql_parser::query::SelectionSet {
        span: (field_pos, field_pos),
        items: vec![graphql_parser::query::Selection::Field(graphql_parser::query::Field {
            position: field_pos,
            alias: None,
            name: field_name.to_string(),
            arguments: vec![],
            directives: vec![],
            selection_set: graphql_parser::query::SelectionSet { span: (field_pos, field_pos), items: vec![] },
        })],
    }
}

fn named(s: &str) -> graphql_parser::schema::Type<'static, String> {
    graphql_parser::schema::Type::NamedType(s.to_string())
}

// ── Schema documents ────────────────────────────────────────────────

#[test]
fn test_object_type() {
    let gp_doc = schema_doc(vec![RealSchemaItem::TypeDefinition(RealTypeDef::Object(graphql_parser::schema::ObjectType {
        position: pos(2, 1),
        description: Some("A user".to_string()),
        name: "User".to_string(),
        implements_interfaces: vec!["Node".to_string()],
        directives: vec![],
        fields: vec![graphql_parser::schema::Field {
            position: pos(3, 3),
            description: None,
            name: "name".to_string(),
            arguments: vec![],
            field_type: graphql_parser::schema::Type::NonNullType(Box::new(named("String"))),
            directives: vec![],
        }],
    }))]);

    let doc = from_graphql_parser_schema_ast(&gp_doc);
    assert_eq!(doc.definitions.len(), 1);
    match &doc.definitions[0] {
        ast::Definition::TypeDefinition(ast::TypeDefinition::Object(obj)) => {
            assert_eq!(obj.name.value, "User");
            assert_eq!(obj.span.start_inclusive.line(), 1);
            assert_eq!(obj.span.start_inclusive.col_utf8(), 0);
            assert_eq!(obj.description.as_ref().map(|d| d.value.as_str()), Some("A user"));
            assert_eq!(obj.implements.len(), 1);
            assert_eq!(obj.implements[0].value, "Node");
            assert_eq!(obj.fields.len(), 1);
            assert_eq!(obj.fields[0].name.value, "name");
            assert_eq!(obj.fields[0].span.start_inclusive.line(), 2);
            assert_eq!(obj.fields[0].span.start_inclusive.col_utf8(), 2);
            match &obj.fields[0].field_type {
                ast::TypeAnnotation::Named(n) => {
                    assert_eq!(n.name.value, "String");
                    assert!(matches!(n.nullability, ast::Nullability::NonNull { .. }));
                },
                other => panic!("Expected Named, got {other:?}"),
            }
        },
        other => panic!("Expected Object, got {other:?}"),
    }
}

#[test]
fn from_schema_tests_test_schema_definition() {
    let gp_doc = schema_doc(vec![RealSchemaItem::SchemaDefinition(graphql_parser::schema::SchemaDefinition {
        position: pos(1, 1),
        directives: vec![],
        query: Some("Query".to_string()),
        mutation: Some("Mutation".to_string()),
        subscription: None,
    })]);
    let doc = from_graphql_parser_schema_ast(&gp_doc);
    match &doc.definitions[0] {
        ast::Definition::SchemaDefinition(sd) => {
            assert_eq!(sd.root_operations.len(), 2);
            assert_eq!(sd.root_operations[0].named_type.value, "Query");
            assert_eq!(sd.root_operations[0].operation_kind, ast::OperationKind::Query);
            assert_eq!(sd.root_operations[1].named_type.value, "Mutation");
            assert_eq!(sd.root_operations[1].operation_kind, ast::OperationKind::Mutation);
        },
        other => panic!("Expected SchemaDefinition, got {other:?}"),
    }
}

#[test]
fn test_scalar_type() {
    let gp_doc = schema_doc(vec![RealSchemaItem::TypeDefinition(RealTypeDef::Scalar(graphql_parser::schema::ScalarType {
        position: pos(1, 1),
        description: None,
        name: "DateTime".to_string(),
        directives: vec![],
    }))]);
    let doc = from_graphql_parser_schema_ast(&gp_doc);
    match &doc.definitions[0] {
        ast::Definition::TypeDefinition(ast::TypeDefinition::Scalar(s)) => {
            assert_eq!(s.name.value, "DateTime");
            assert!(s.description.is_none());
        },
        other => panic!("Expected Scalar, got {other:?}"),
    }
}

#[test]
fn test_enum_type() {
    let gp_doc = schema_doc(vec![RealSchemaItem::TypeDefinition(RealTypeDef::Enum(graphql_parser::schema::EnumType {
        position: pos(1, 1),
        description: None,
        name: "Status".to_string(),
        directives: vec![],
        values: vec![
            graphql_parser::schema::EnumValue {
                position: pos(2, 3),
                description: None,
                name: "ACTIVE".to_string(),
                directives: vec![],
            },
            graphql_parser::schema::EnumValue {
                position: pos(3, 3),
                description: Some("Deactivated".to_string()),
                name: "INACTIVE".to_string(),
                directives: vec![],
            },
        ],
    }))]);
    let doc = from_graphql_parser_schema_ast(&gp_doc);
    match &doc.definitions[0] {
        ast::Definition::TypeDefinition(ast::TypeDefinition::Enum(e)) => {
            assert_eq!(e.name.value, "Status");
            assert_eq!(e.values.len(), 2);
            assert_eq!(e.values[0].name.value, "ACTIVE");
            assert_eq!(e.values[0].span.start_inclusive.line(), 1);
            assert_eq!(e.values[1].name.value, "INACTIVE");
            assert_eq!(e.values[1].description.as_ref().map(|d| d.value.as_str()), Some("Deactivated"));
        },
        other => panic!("Expected Enum, got {other:?}"),
    }
}

#[test]
fn test_interface_type() {
    let gp_doc = schema_doc(vec![RealSchemaItem::TypeDefinition(RealTypeDef::Interface(graphql_parser::schema::InterfaceType {
        position: pos(4, 1),
        description: Some("A node".to_string()),
        name: "Node".to_string(),
        implements_interfaces: vec![],
        directives: vec![],
        fields: vec![graphql_parser::schema::Field {
            position: pos(5, 3),
            description: None,
            name: "id".to_string(),
            arguments: vec![],
            field_type: named("ID"),
            directives: vec![],
        }],
    }))]);
    let doc = from_graphql_parser_schema_ast(&gp_doc);
    match &doc.definitions[0] {
        ast::Definition::TypeDefinition(ast::TypeDefinition::Interface(iface)) => {
            assert_eq!(iface.name.value, "Node");
            assert_eq!(iface.span.start_inclusive.line(), 3);
            assert_eq!(iface.fields.len(), 1);
            assert_eq!(iface.fields[0].name.value, "id");
        },
        other => panic!("Expected Interface, got {other:?}"),
    }
}

#[test]
fn test_union_type() {
    let gp_doc = schema_doc(vec![RealSchemaItem::TypeDefinition(RealTypeDef::Union(graphql_parser::schema::UnionType {
        position: pos(6, 1),
        description: None,
        name: "SearchResult".to_string(),
        directives: vec![],
        types: vec!["User".to_string(), "Post".to_string()],
    }))]);
    let doc = from_graphql_parser_schema_ast(&gp_doc);
    match &doc.definitions[0] {
        ast::Definition::TypeDefinition(ast::TypeDefinition::Union(u)) => {
            assert_eq!(u.name.value, "SearchResult");
            assert_eq!(u.members.len(), 2);
            assert_eq!(u.members[0].value, "User");
            assert_eq!(u.members[1].value, "Post");
        },
        other => panic!("Expected Union, got {other:?}"),
    }
}

#[test]
fn test_input_object_type() {
    let gp_doc =
        schema_doc(vec![RealSchemaItem::TypeDefinition(RealTypeDef::InputObject(graphql_parser::schema::InputObjectType {
            position: pos(7, 1),
            description: None,
            name: "CreateUserInput".to_string(),
            directives: vec![],
            fields: vec![graphql_parser::schema::InputValue {
                position: pos(8, 3),
                description: None,
                name: "name".to_string(),
                value_type: named("String"),
                default_value: None,
                directives: vec![],
            }],
        }))]);
    let doc = from_graphql_parser_schema_ast(&gp_doc);
    match &doc.definitions[0] {
        ast::Definition::TypeDefinition(ast::TypeDefinition::InputObject(io)) => {
            assert_eq!(io.name.value, "CreateUserInput");
            assert_eq!(io.fields.len(), 1);
            assert_eq!(io.fields[0].name.value, "name");
        },
        other => panic!("Expected InputObject, got {other:?}"),
    }
}

#[test]
fn from_schema_tests_test_directive_definition() {
    let gp_doc = schema_doc(vec![RealSchemaItem::DirectiveDefinition(graphql_parser::schema::DirectiveDefinition {
        position: pos(9, 1),
        description: Some("Cache hint".to_string()),
        name: "cached".to_string(),
        arguments: vec![],
        repeatable: true,
        locations: vec![
            graphql_parser::schema::DirectiveLocation::FieldDefinition,
            graphql_parser::schema::DirectiveLocation::Object,
        ],
    })]);
    let doc = from_graphql_parser_schema_ast(&gp_doc);
    match &doc.definitions[0] {
        ast::Definition::DirectiveDefinition(dd) => {
            assert_eq!(dd.name.value, "cached");
            assert!(dd.repeatable);
            assert_eq!(dd.description.as_ref().map(|d| d.value.as_str()), Some("Cache hint"));
            assert_eq!(dd.locations.len(), 2);
            assert_eq!(dd.locations[0].kind, ast::DirectiveLocationKind::FieldDefinition);
            assert_eq!(dd.locations[1].kind, ast::DirectiveLocationKind::Object);
        },
        other => panic!("Expected DirectiveDefinition, got {other:?}"),
    }
}

#[test]
fn from_schema_tests_test_type_extension() {
    let gp_doc = schema_doc(vec![RealSchemaItem::TypeExtension(graphql_parser::schema::TypeExtension::Object(
        graphql_parser::schema::ObjectTypeExtension {
            position: pos(10, 1),
            name: "User".to_string(),
            implements_interfaces: vec![],
            directives: vec![],
            fields: vec![graphql_parser::schema::Field {
                position: pos(11, 3),
                description: None,
                name: "age".to_string(),
                arguments: vec![],
                field_type: named("Int"),
                directives: vec![],
            }],
        },
    ))]);
    let doc = from_graphql_parser_schema_ast(&gp_doc);
    match &doc.definitions[0] {
        ast::Definition::TypeExtension(ast::TypeExtension::Object(ext)) => {
            assert_eq!(ext.name.value, "User");
            assert_eq!(ext.span.start_inclusive.line(), 9);
            assert_eq!(ext.fields.len(), 1);
            assert_eq!(ext.fields[0].name.value, "age");
        },
        other => panic!("Expected Object extension, got {other:?}"),
    }
}

// Only value nodes carry syntax detail in this crate's AST; a converted
// description has none.
#[test]
fn test_syntax_fields_are_none() {
    let gp_doc = schema_doc(vec![RealSchemaItem::TypeDefinition(RealTypeDef::Scalar(graphql_parser::schema::ScalarType {
        position: pos(1, 1),
        description: Some("JSON".to_string()),
        name: "JSON".to_string(),
        directives: vec![],
    }))]);
    let doc = from_graphql_parser_schema_ast(&gp_doc);
    match &doc.definitions[0] {
        ast::Definition::TypeDefinition(ast::TypeDefinition::Scalar(s)) => {
            assert!(s.description.as_ref().unwrap().syntax.is_none());
        },
        _ => panic!("Expected Scalar"),
    }
    assert_eq!(doc.span.start_inclusive.line(), 0);
}

// Strings of this crate's AST are owned `String`s.
#[test]
fn test_strings_are_cow_owned() {
    let gp_doc = schema_doc(vec![RealSchemaItem::TypeDefinition(RealTypeDef::Scalar(graphql_parser::schema::ScalarType {
        position: pos(1, 1),
        description: Some("JSON data".to_string()),
        name: "JSON".to_string(),
        directives: vec![],
    }))]);
    let doc = from_graphql_parser_schema_ast(&gp_doc);
    match &doc.definitions[0] {
        ast::Definition::TypeDefinition(ast::TypeDefinition::Scalar(s)) => {
            let name: &String = &s.name.value;
            assert_eq!(name, "JSON");
            let desc: &String = &s.description.as_ref().unwrap().value;
            assert_eq!(desc, "JSON data");
        },
        _ => panic!("Expected Scalar"),
    }
}

#[test]
fn test_without_source_byte_offsets_are_zero() {
    let source = "type User {\n  name: String\n}\n";
    let gp_doc = m_schema(&graphql_parser::parse_schema::<String>(source).expect("valid schema"));
    let doc = from_graphql_parser_schema_ast(&gp_doc);
    match &doc.definitions[0] {
        ast::Definition::TypeDefinition(ast::TypeDefinition::Object(obj)) => {
            assert_eq!(obj.span.start_inclusive.byte_offset(), 0, "Without source, byte_offset should be 0");
            assert_eq!(
                obj.fields[0].span.start_inclusive.byte_offset(),
                0,
                "Without source, field byte_offset should be 0",
            );
        },
        _ => panic!("Expected Object type"),
    }
}

#[test]
fn test_with_source_computes_byte_offsets() {
    let source = "type User {\n  name: String\n}\n";
    let gp_doc = m_schema(&graphql_parser::parse_schema::<String>(source).expect("valid schema"));
    let doc = from_graphql_parser_schema_ast_with_source(&gp_doc, source);
    match &doc.definitions[0] {
        ast::Definition::TypeDefinition(ast::TypeDefinition::Object(obj)) => {
            assert_eq!(obj.span.start_inclusive.byte_offset(), 0);
            assert_eq!(obj.span.start_inclusive.line(), 0);
            assert_eq!(obj.span.start_inclusive.col_utf8(), 0);
            assert_eq!(obj.fields[0].span.start_inclusive.byte_offset(), 14);
            assert_eq!(obj.fields[0].span.start_inclusive.line(), 1);
            assert_eq!(obj.fields[0].span.start_inclusive.col_utf8(), 2);
        },
        _ => panic!("Expected Object type"),
    }
}

#[test]
fn test_with_source_multi_type_byte_offsets() {
    let source = "\
scalar Date

\"A user\"
type User {
  id: ID!
  name: String
}

enum Role {
  ADMIN
  USER
}
";
    let gp_doc = m_schema(&graphql_parser::parse_schema::<String>(source).expect("valid schema"));
    let doc = from_graphql_parser_schema_ast_with_source(&gp_doc, source);
    assert_eq!(doc.definitions.len(), 3);
    match &doc.definitions[0] {
        ast::Definition::TypeDefinition(ast::TypeDefinition::Scalar(s)) => {
            assert_eq!(s.span.start_inclusive.byte_offset(), 0);
        },
        _ => panic!("Expected Scalar"),
    }
    match &doc.definitions[1] {
        ast::Definition::TypeDefinition(ast::TypeDefinition::Object(obj)) => {
            assert_eq!(obj.span.start_inclusive.byte_offset(), 22);
            assert_eq!(obj.span.start_inclusive.line(), 3);
            assert_eq!(obj.fields[0].span.start_inclusive.byte_offset(), 36);
        },
        _ => panic!("Expected Object"),
    }
    match &doc.definitions[2] {
        ast::Definition::TypeDefinition(ast::TypeDefinition::Enum(e)) => {
            assert_eq!(e.span.start_inclusive.byte_offset(), 62);
            assert_eq!(e.span.start_inclusive.line(), 8);
        },
        _ => panic!("Expected Enum"),
    }
}

#[test]
fn with_source_counts_characters_not_bytes() {
    // Column 3 of line 1 is the ":" after "  é", which takes four bytes
    // ("é" takes two).
    let source = "type T {\n  é: Int\n}\n";
    let gp_doc = gp::SchemaDocument {
        definitions: vec![gp::SchemaDefinitionItem::TypeDefinition(gp::TypeDefinition::Scalar(
            gp::ScalarType {
                position: gp::Pos { line: 2, column: 4 },
                description: None,
                name: "X".to_string(),
                directives: vec![],
            },
        ))],
    };
    let doc = from_graphql_parser_schema_ast_with_source(&gp_doc, source);
    match &doc.definitions[0] {
        ast::Definition::TypeDefinition(ast::TypeDefinition::Scalar(s)) => {
            assert_eq!(s.span.start_inclusive.line(), 1);
            assert_eq!(s.span.start_inclusive.col_utf8(), 3);
            assert_eq!(s.span.start_inclusive.byte_offset(), 9 + 4);
        },
        _ => panic!("Expected Scalar"),
    }
}

#[test]
fn with_source_position_past_last_line_has_offset_zero() {
    let gp_doc = gp::SchemaDocument {
        definitions: vec![gp::SchemaDefinitionItem::TypeDefinition(gp::TypeDefinition::Scalar(
            gp::ScalarType {
                position: gp::Pos { line: 9, column: 4 },
                description: None,
                name: "X".to_string(),
                directives: vec![],
            },
        ))],
    };
    let doc = from_graphql_parser_schema_ast_with_source(&gp_doc, "scalar X\n");
    match &doc.definitions[0] {
        ast::Definition::TypeDefinition(ast::TypeDefinition::Scalar(s)) => {
            assert_eq!(s.span.start_inclusive.byte_offset(), 0);
        },
        _ => panic!("Expected Scalar"),
    }
}

// ── Query documents ─────────────────────────────────────────────────

#[test]
fn from_query_tests_test_shorthand_query() {
    let gp_doc = doc_with(graphql_parser::query::Definition::Operation(
        graphql_parser::query::OperationDefinition::SelectionSet(sel_set_with_field(pos(1, 3), "users")),
    ));
    let doc = from_graphql_parser_query_ast(&gp_doc);
    assert_eq!(doc.definitions.len(), 1);
    match &doc.definitions[0] {
        ast::Definition::OperationDefinition(op) => {
            assert_eq!(op.operation_kind, ast::OperationKind::Query);
            assert!(op.name.is_none());
            assert!(op.directives.is_empty());
            assert!(op.variable_definitions.is_empty());
            assert_eq!(op.selection_set.selections.len(), 1);
            match &op.selection_set.selections[0] {
                ast::Selection::Field(f) => {
                    assert_eq!(f.name.value, "users");
                    assert_eq!(f.span.start_inclusive.line(), 0);
                    assert_eq!(f.span.start_inclusive.col_utf8(), 2);
                },
                other => panic!("Expected Field, got {:?}", other),
            }
        },
        other => panic!("Expected OperationDefinition, got {:?}", other),
    }
}

#[test]
fn from_query_tests_test_named_query_with_variables() {
    let gp_doc = doc_with(graphql_parser::query::Definition::Operation(
        graphql_parser::query::OperationDefinition::Query(graphql_parser::query::Query {
            position: pos(1, 1),
            name: Some("GetUser".to_string()),
            variable_definitions: vec![graphql_parser::query::VariableDefinition {
                position: pos(1, 15),
                name: "id".to_string(),
                var_type: graphql_parser::schema::Type::NonNullType(Box::new(named("ID"))),
                default_value: None,
            }],
            directives: vec![],
            selection_set: sel_set_with_field(pos(2, 3), "user"),
        }),
    ));
    let doc = from_graphql_parser_query_ast(&gp_doc);
    match &doc.definitions[0] {
        ast::Definition::OperationDefinition(op) => {
            assert_eq!(op.operation_kind, ast::OperationKind::Query);
            assert_eq!(op.name.as_ref().map(|n| n.value.as_str()), Some("GetUser"));
            assert_eq!(op.variable_definitions.len(), 1);
            let var_def = &op.variable_definitions[0];
            assert_eq!(var_def.variable.value, "id");
            assert!(var_def.directives.is_empty());
            match &var_def.var_type {
                ast::TypeAnnotation::Named(n) => {
                    assert_eq!(n.name.value, "ID");
                    assert!(matches!(n.nullability, ast::Nullability::NonNull { .. }));
                },
                other => panic!("Expected Named, got {:?}", other),
            }
        },
        other => panic!("Expected OperationDefinition, got {:?}", other),
    }
}

#[test]
fn from_query_tests_test_mutation() {
    let gp_doc = doc_with(graphql_parser::query::Definition::Operation(
        graphql_parser::query::OperationDefinition::Mutation(graphql_parser::query::Mutation {
            position: pos(3, 1),
            name: Some("CreateUser".to_string()),
            variable_definitions: vec![],
            directives: vec![],
            selection_set: sel_set_with_field(pos(4, 3), "createUser"),
        }),
    ));
    let doc = from_graphql_parser_query_ast(&gp_doc);
    match &doc.definitions[0] {
        ast::Definition::OperationDefinition(op) => {
            assert_eq!(op.operation_kind, ast::OperationKind::Mutation);
            assert_eq!(op.name.as_ref().map(|n| n.value.as_str()), Some("CreateUser"));
            assert_eq!(op.span.start_inclusive.line(), 2);
        },
        other => panic!("Expected OperationDefinition, got {:?}", other),
    }
}

#[test]
fn from_query_tests_test_subscription() {
    let gp_doc = doc_with(graphql_parser::query::Definition::Operation(
        graphql_parser::query::OperationDefinition::Subscription(graphql_parser::query::Subscription {
            position: pos(5, 1),
            name: None,
            variable_definitions: vec![],
            directives: vec![],
            selection_set: sel_set_with_field(pos(6, 3), "onMessage"),
        }),
    ));
    let doc = from_graphql_parser_query_ast(&gp_doc);
    match &doc.definitions[0] {
        ast::Definition::OperationDefinition(op) => {
            assert_eq!(op.operation_kind, ast::OperationKind::Subscription);
            assert!(op.name.is_none());
        },
        other => panic!("Expected OperationDefinition, got {:?}", other),
    }
}

#[test]
fn from_query_tests_test_fragment_definition() {
    let gp_doc = doc_with(graphql_parser::query::Definition::Fragment(
        graphql_parser::query::FragmentDefinition {
            position: pos(7, 1),
            name: "UserFields".to_string(),
            type_condition: graphql_parser::query::TypeCondition::On("User".to_string()),
            directives: vec![],
            selection_set: sel_set_with_field(pos(8, 3), "name"),
        },
    ));
    let doc = from_graphql_parser_query_ast(&gp_doc);
    match &doc.definitions[0] {
        ast::Definition::FragmentDefinition(frag) => {
            assert_eq!(frag.name.value, "UserFields");
            assert_eq!(frag.span.start_inclusive.line(), 6);
            assert_eq!(frag.type_condition.named_type.value, "User");
            assert_eq!(frag.selection_set.selections.len(), 1);
        },
        other => panic!("Expected FragmentDefinition, got {:?}", other),
    }
}

#[test]
fn from_query_tests_test_field_with_alias_and_args() {
    let gp_doc = doc_with(graphql_parser::query::Definition::Operation(
        graphql_parser::query::OperationDefinition::Query(graphql_parser::query::Query {
            position: pos(1, 1),
            name: None,
            variable_definitions: vec![],
            directives: vec![],
            selection_set: graphql_parser::query::SelectionSet {
                span: (pos(1, 1), pos(5, 1)),
                items: vec![graphql_parser::query::Selection::Field(graphql_parser::query::Field {
                    position: pos(2, 3),
                    alias: Some("myUser".to_string()),
                    name: "user".to_string(),
                    arguments: vec![(
                        "id".to_string(),
                        graphql_parser::query::Value::String("123".to_string()),
                    )],
                    directives: vec![],
                    selection_set: sel_set_with_field(pos(3, 5), "name"),
                })],
            },
        }),
    ));
    let doc = from_graphql_parser_query_ast(&gp_doc);
    match &doc.definitions[0] {
        ast::Definition::OperationDefinition(op) => match &op.selection_set.selections[0] {
            ast::Selection::Field(field) => {
                assert_eq!(field.alias.as_ref().map(|a| a.value.as_str()), Some("myUser"));
                assert_eq!(field.name.value, "user");
                assert_eq!(field.arguments.len(), 1);
                assert_eq!(field.arguments[0].name.value, "id");
                assert!(field.selection_set.is_some());
                let nested = field.selection_set.as_ref().unwrap();
                assert_eq!(nested.selections.len(), 1);
            },
            other => panic!("Expected Field, got {:?}", other),
        },
        other => panic!("Expected OperationDefinition, got {:?}", other),
    }
}

#[test]
fn from_query_tests_test_fragment_spread_and_inline_fragment() {
    let gp_doc = doc_with(graphql_parser::query::Definition::Operation(
        graphql_parser::query::OperationDefinition::Query(graphql_parser::query::Query {
            position: pos(1, 1),
            name: None,
            variable_definitions: vec![],
            directives: vec![],
            selection_set: graphql_parser::query::SelectionSet {
                span: (pos(1, 1), pos(10, 1)),
                items: vec![
                    graphql_parser::query::Selection::FragmentSpread(graphql_parser::query::FragmentSpread {
                        position: pos(2, 3),
                        fragment_name: "UserFields".to_string(),
                        directives: vec![],
                    }),
                    graphql_parser::query::Selection::InlineFragment(graphql_parser::query::InlineFragment {
                        position: pos(3, 3),
                        type_condition: Some(graphql_parser::query::TypeCondition::On("Admin".to_string())),
                        directives: vec![],
                        selection_set: sel_set_with_field(pos(4, 5), "role"),
                    }),
                ],
            },
        }),
    ));
    let doc = from_graphql_parser_query_ast(&gp_doc);
    match &doc.definitions[0] {
        ast::Definition::OperationDefinition(op) => {
            assert_eq!(op.selection_set.selections.len(), 2);
            match &op.selection_set.selections[0] {
                ast::Selection::FragmentSpread(spread) => {
                    assert_eq!(spread.name.value, "UserFields");
                    assert_eq!(spread.span.start_inclusive.line(), 1);
                },
                other => panic!("Expected FragmentSpread, got {:?}", other),
            }
            match &op.selection_set.selections[1] {
                ast::Selection::InlineFragment(inline) => {
                    assert_eq!(
                        inline.type_condition.as_ref().map(|tc| tc.named_type.value.as_str()),
                        Some("Admin"),
                    );
                    assert_eq!(inline.selection_set.selections.len(), 1);
                },
                other => panic!("Expected InlineFragment, got {:?}", other),
            }
        },
        other => panic!("Expected OperationDefinition, got {:?}", other),
    }
}

#[test]
fn test_empty_selection_set_becomes_none() {
    let gp_doc = doc_with(graphql_parser::query::Definition::Operation(
        graphql_parser::query::OperationDefinition::Query(graphql_parser::query::Query {
            position: pos(1, 1),
            name: None,
            variable_definitions: vec![],
            directives: vec![],
            selection_set: graphql_parser::query::SelectionSet {
                span: (pos(1, 1), pos(3, 1)),
                items: vec![graphql_parser::query::Selection::Field(graphql_parser::query::Field {
                    position: pos(2, 3),
                    alias: None,
                    name: "name".to_string(),
                    arguments: vec![],
                    directives: vec![],
                    selection_set: empty_sel_set(pos(2, 3)),
                })],
            },
        }),
    ));
    let doc = from_graphql_parser_query_ast(&gp_doc);
    match &doc.definitions[0] {
        ast::Definition::OperationDefinition(op) => match &op.selection_set.selections[0] {
            ast::Selection::Field(field) => {
                assert!(field.selection_set.is_none());
            },
            other => panic!("Expected Field, got {:?}", other),
        },
        _ => panic!("Expected OperationDefinition"),
    }
}

#[test]
fn test_variable_def_has_empty_directives() {
    let gp_doc = doc_with(graphql_parser::query::Definition::Operation(
        graphql_parser::query::OperationDefinition::Query(graphql_parser::query::Query {
            position: pos(1, 1),
            name: None,
            variable_definitions: vec![graphql_parser::query::VariableDefinition {
                position: pos(1, 10),
                name: "x".to_string(),
                var_type: named("Int"),
                default_value: Some(graphql_parser::query::Value::Int(42i32.into())),
            }],
            directives: vec![],
            selection_set: sel_set_with_field(pos(2, 3), "value"),
        }),
    ));
    let doc = from_graphql_parser_query_ast(&gp_doc);
    match &doc.definitions[0] {
        ast::Definition::OperationDefinition(op) => {
            let var_def = &op.variable_definitions[0];
            assert!(var_def.directives.is_empty());
            assert!(var_def.description.is_none());
            match &var_def.default_value {
                Some(ast::Value::Int(i)) => {
                    assert_eq!(i.value, 42);
                },
                other => panic!("Expected Int default, got {:?}", other),
            }
        },
        _ => panic!("Expected OperationDefinition"),
    }
}

#[test]
fn test_query_without_source_byte_offsets_zero() {
    let source = "query GetUser {\n  name\n}\n";
    let gp_doc = m_query(&graphql_parser::parse_query::<String>(source).expect("valid query"));
    let doc = from_graphql_parser_query_ast(&gp_doc);
    match &doc.definitions[0] {
        ast::Definition::OperationDefinition(op) => {
            assert_eq!(op.span.start_inclusive.byte_offset(), 0, "Without source, byte_offset should be 0");
        },
        _ => panic!("Expected OperationDefinition"),
    }
}

#[test]
fn test_query_with_source_byte_offsets() {
    let source = "query GetUser {\n  name\n}\n";
    let gp_doc = m_query(&graphql_parser::parse_query::<String>(source).expect("valid query"));
    let doc = from_graphql_parser_query_ast_with_source(&gp_doc, source);
    match &doc.definitions[0] {
        ast::Definition::OperationDefinition(op) => {
            assert_eq!(op.span.start_inclusive.byte_offset(), 0);
            assert_eq!(op.span.start_inclusive.line(), 0);
            let field = match &op.selection_set.selections[0] {
                ast::Selection::Field(f) => f,
                _ => panic!("Expected Field"),
            };
            assert_eq!(field.span.start_inclusive.byte_offset(), 18);
            assert_eq!(field.span.start_inclusive.line(), 1);
            assert_eq!(field.span.start_inclusive.col_utf8(), 2);
        },
        _ => panic!("Expected OperationDefinition"),
    }
}

#[test]
fn test_query_with_source_multi_definition() {
    let source = "\
query GetUser {
  name
}

fragment UserFields on User {
  email
}
";
    let gp_doc = m_query(&graphql_parser::parse_query::<String>(source).expect("valid query"));
    let doc = from_graphql_parser_query_ast_with_source(&gp_doc, source);
    assert_eq!(doc.definitions.len(), 2);
    match &doc.definitions[0] {
        ast::Definition::OperationDefinition(op) => {
            assert_eq!(op.span.start_inclusive.byte_offset(), 0);
        },
        _ => panic!("Expected OperationDefinition"),
    }
    match &doc.definitions[1] {
        ast::Definition::FragmentDefinition(frag) => {
            assert_eq!(frag.span.start_inclusive.byte_offset(), 26);
            assert_eq!(frag.span.start_inclusive.line(), 4);
            assert_eq!(frag.name.value, "UserFields");
            let field = match &frag.selection_set.selections[0] {
                ast::Selection::Field(f) => f,
                _ => panic!("Expected Field"),
            };
            assert_eq!(field.span.start_inclusive.byte_offset(), 58);
        },
        _ => panic!("Expected FragmentDefinition"),
    }
}

#[test]
fn test_mutation_with_source_byte_offsets() {
    let source = "\
mutation CreateUser($name: String!) {
  createUser(name: $name) {
    id
  }
}
";
    let gp_doc = m_query(&graphql_parser::parse_query::<String>(source).expect("valid query"));
    let doc = from_graphql_parser_query_ast_with_source(&gp_doc, source);
    match &doc.definitions[0] {
        ast::Definition::OperationDefinition(op) => {
            assert_eq!(op.span.start_inclusive.byte_offset(), 0);
            assert_eq!(op.operation_kind, ast::OperationKind::Mutation);
            assert_eq!(op.variable_definitions.len(), 1);
            assert_eq!(op.variable_definitions[0].span.start_inclusive.byte_offset(), 20);
            let field = match &op.selection_set.selections[0] {
                ast::Selection::Field(f) => f,
                _ => panic!("Expected Field"),
            };
            assert_eq!(field.span.start_inclusive.byte_offset(), 40);
            assert_eq!(field.name.value, "createUser");
        },
        _ => panic!("Expected OperationDefinition"),
    }
}

#[test]
fn from_gp_int_is_cut_to_32_bits() {
    let gp_doc = gp::QueryDocument {
        definitions: vec![gp::QueryDefinition::Operation(gp::OperationDefinition::Query(gp::Query {
            position: gp::Pos { line: 1, column: 1 },
            name: Some("Q".to_string()),
            variable_definitions: vec![gp::VariableDefinition {
                position: gp::Pos { line: 1, column: 9 },
                name: "x".to_string(),
                var_type: gp::Type::NonNullType(Box::new(gp::Type::NonNullType(Box::new(
                    gp::Type::NamedType("Int".to_string()),
                )))),
                default_value: Some(gp::Value::Int((1i64 << 32) + 7)),
            }],
            directives: vec![],
            selection_set: gp::SelectionSet {
                span: (gp::Pos { line: 1, column: 20 }, gp::Pos { line: 1, column: 30 }),
                items: vec![],
            },
        }))],
    };
    let doc = from_graphql_parser_query_ast(&gp_doc);
    match &doc.definitions[0] {
        ast::Definition::OperationDefinition(op) => {
            let vd = &op.variable_definitions[0];
            match &vd.default_value {
                Some(ast::Value::Int(i)) => assert_eq!(i.value, 7),
                other => panic!("Expected Int, got {other:?}"),
            }
            // A doubly non-null type is read as its inner non-null type.
            match &vd.var_type {
                ast::TypeAnnotation::Named(n) => {
                    assert_eq!(n.name.value, "Int");
                    assert!(matches!(n.nullability, ast::Nullability::NonNull { .. }));
                },
                other => panic!("Expected Named, got {other:?}"),
            }
        },
        other => panic!("Expected OperationDefinition, got {other:?}"),
    }
}
// ── graphql_parser documents in this crate's model ──────────────────

use graphql_parser::query::Definition as RealQueryItem;
use graphql_parser::query::OperationDefinition as RealOperation;
use graphql_parser::query::Selection as RealSelection;
use graphql_parser::query::Value as RealValue;
use graphql_parser::schema::Definition as RealSchemaItem;
use graphql_parser::schema::DirectiveLocation as RealLocation;
use graphql_parser::schema::Type as RealType;
use graphql_parser::schema::TypeDefinition as RealTypeDef;
use graphql_parser::schema::TypeExtension as RealTypeExt;


type RealPos = graphql_parser::Pos;

fn m_pos(p: RealPos) -> gp::Pos {
    gp::Pos { line: p.line, column: p.column }
}

fn m_value(v: &graphql_parser::query::Value<'_, String>) -> gp::Value {
    match v {
        RealValue::Variable(s) => gp::Value::Variable(s.clone()),
        RealValue::Int(n) => gp::Value::Int(n.as_i64().unwrap()),
        RealValue::Float(f) => gp::Value::Float(f.to_string()),
        RealValue::String(s) => gp::Value::String(s.clone()),
        RealValue::Boolean(b) => gp::Value::Boolean(*b),
        RealValue::Null => gp::Value::Null,
        RealValue::Enum(s) => gp::Value::Enum(s.clone()),
        RealValue::List(items) => gp::Value::List(items.iter().map(m_value).collect()),
        RealValue::Object(map) => gp::Value::Object(map.iter().map(|(k, v)| (k.clone(), m_value(v))).collect()),
    }
}

fn m_type(t: &graphql_parser::schema::Type<'_, String>) -> gp::Type {
    match t {
        RealType::NamedType(s) => gp::Type::NamedType(s.clone()),
        RealType::ListType(b) => gp::Type::ListType(Box::new(m_type(b))),
        RealType::NonNullType(b) => gp::Type::NonNullType(Box::new(m_type(b))),
    }
}

fn m_directives(ds: &[graphql_parser::schema::Directive<'_, String>]) -> Vec<gp::Directive> {
    ds.iter()
        .map(|d| gp::Directive {
            position: m_pos(d.position),
            name: d.name.clone(),
            arguments: d.arguments.iter().map(|(k, v)| (k.clone(), m_value(v))).collect(),
        })
        .collect()
}

fn m_input_values(ivs: &[graphql_parser::schema::InputValue<'_, String>]) -> Vec<gp::InputValue> {
    ivs.iter()
        .map(|iv| gp::InputValue {
            position: m_pos(iv.position),
            description: iv.description.clone(),
            name: iv.name.clone(),
            value_type: m_type(&iv.value_type),
            default_value: iv.default_value.as_ref().map(m_value),
            directives: m_directives(&iv.directives),
        })
        .collect()
}

fn m_fields(fs: &[graphql_parser::schema::Field<'_, String>]) -> Vec<gp::Field> {
    fs.iter()
        .map(|f| gp::Field {
            position: m_pos(f.position),
            description: f.description.clone(),
            name: f.name.clone(),
            arguments: m_input_values(&f.arguments),
            field_type: m_type(&f.field_type),
            directives: m_directives(&f.directives),
        })
        .collect()
}

fn m_enum_values(evs: &[graphql_parser::schema::EnumValue<'_, String>]) -> Vec<gp::EnumValue> {
    evs.iter()
        .map(|e| gp::EnumValue {
            position: m_pos(e.position),
            description: e.description.clone(),
            name: e.name.clone(),
            directives: m_directives(&e.directives),
        })
        .collect()
}

fn m_location(l: &graphql_parser::schema::DirectiveLocation) -> gp::DirectiveLocation {
    match l {
        RealLocation::Query => gp::DirectiveLocation::Query,
        RealLocation::Mutation => gp::DirectiveLocation::Mutation,
        RealLocation::Subscription => gp::DirectiveLocation::Subscription,
        RealLocation::Field => gp::DirectiveLocation::Field,
        RealLocation::FragmentDefinition => gp::DirectiveLocation::FragmentDefinition,
        RealLocation::FragmentSpread => gp::DirectiveLocation::FragmentSpread,
        RealLocation::InlineFragment => gp::DirectiveLocation::InlineFragment,
        RealLocation::Schema => gp::DirectiveLocation::Schema,
        RealLocation::Scalar => gp::DirectiveLocation::Scalar,
        RealLocation::Object => gp::DirectiveLocation::Object,
        RealLocation::FieldDefinition => gp::DirectiveLocation::FieldDefinition,
        RealLocation::ArgumentDefinition => gp::DirectiveLocation::ArgumentDefinition,
        RealLocation::Interface => gp::DirectiveLocation::Interface,
        RealLocation::Union => gp::DirectiveLocation::Union,
        RealLocation::Enum => gp::DirectiveLocation::Enum,
        RealLocation::EnumValue => gp::DirectiveLocation::EnumValue,
        RealLocation::InputObject => gp::DirectiveLocation::InputObject,
        RealLocation::InputFieldDefinition => gp::DirectiveLocation::InputFieldDefinition,
        RealLocation::VariableDefinition => gp::DirectiveLocation::VariableDefinition,
    }
}

fn m_schema(doc: &graphql_parser::schema::Document<'_, String>) -> gp::SchemaDocument {
    let definitions = doc
        .definitions
        .iter()
        .map(|d| match d {
            RealSchemaItem::SchemaDefinition(s) => gp::SchemaDefinitionItem::SchemaDefinition(gp::SchemaDefinition {
                position: m_pos(s.position),
                directives: m_directives(&s.directives),
                query: s.query.clone(),
                mutation: s.mutation.clone(),
                subscription: s.subscription.clone(),
            }),
            RealSchemaItem::TypeDefinition(t) => gp::SchemaDefinitionItem::TypeDefinition(match t {
                RealTypeDef::Scalar(s) => gp::TypeDefinition::Scalar(gp::ScalarType {
                    position: m_pos(s.position),
                    description: s.description.clone(),
                    name: s.name.clone(),
                    directives: m_directives(&s.directives),
                }),
                RealTypeDef::Object(o) => gp::TypeDefinition::Object(gp::ObjectType {
                    position: m_pos(o.position),
                    description: o.description.clone(),
                    name: o.name.clone(),
                    implements_interfaces: o.implements_interfaces.clone(),
                    directives: m_directives(&o.directives),
                    fields: m_fields(&o.fields),
                }),
                RealTypeDef::Interface(o) => gp::TypeDefinition::Interface(gp::InterfaceType {
                    position: m_pos(o.position),
                    description: o.description.clone(),
                    name: o.name.clone(),
                    implements_interfaces: o.implements_interfaces.clone(),
                    directives: m_directives(&o.directives),
                    fields: m_fields(&o.fields),
                }),
                RealTypeDef::Union(u) => gp::TypeDefinition::Union(gp::UnionType {
                    position: m_pos(u.position),
                    description: u.description.clone(),
                    name: u.name.clone(),
                    directives: m_directives(&u.directives),
                    types: u.types.clone(),
                }),
                RealTypeDef::Enum(e) => gp::TypeDefinition::Enum(gp::EnumType {
                    position: m_pos(e.position),
                    description: e.description.clone(),
                    name: e.name.clone(),
                    directives: m_directives(&e.directives),
                    values: m_enum_values(&e.values),
                }),
                RealTypeDef::InputObject(i) => gp::TypeDefinition::InputObject(gp::InputObjectType {
                    position: m_pos(i.position),
                    description: i.description.clone(),
                    name: i.name.clone(),
                    directives: m_directives(&i.directives),
                    fields: m_input_values(&i.fields),
                }),
            }),
            RealSchemaItem::TypeExtension(t) => gp::SchemaDefinitionItem::TypeExtension(match t {
                RealTypeExt::Scalar(s) => gp::TypeExtension::Scalar(gp::ScalarTypeExtension {
                    position: m_pos(s.position),
                    name: s.name.clone(),
                    directives: m_directives(&s.directives),
                }),
                RealTypeExt::Object(o) => gp::TypeExtension::Object(gp::ObjectTypeExtension {
                    position: m_pos(o.position),
                    name: o.name.clone(),
                    implements_interfaces: o.implements_interfaces.clone(),
                    directives: m_directives(&o.directives),
                    fields: m_fields(&o.fields),
                }),
                RealTypeExt::Interface(o) => gp::TypeExtension::Interface(gp::InterfaceTypeExtension {
                    position: m_pos(o.position),
                    name: o.name.clone(),
                    implements_interfaces: o.implements_interfaces.clone(),
                    directives: m_directives(&o.directives),
                    fields: m_fields(&o.fields),
                }),
                RealTypeExt::Union(u) => gp::TypeExtension::Union(gp::UnionTypeExtension {
                    position: m_pos(u.position),
                    name: u.name.clone(),
                    directives: m_directives(&u.directives),
                    types: u.types.clone(),
                }),
                RealTypeExt::Enum(e) => gp::TypeExtension::Enum(gp::EnumTypeExtension {
                    position: m_pos(e.position),
                    name: e.name.clone(),
                    directives: m_directives(&e.directives),
                    values: m_enum_values(&e.values),
                }),
                RealTypeExt::InputObject(i) => gp::TypeExtension::InputObject(gp::InputObjectTypeExtension {
                    position: m_pos(i.position),
                    name: i.name.clone(),
                    directives: m_directives(&i.directives),
                    fields: m_input_values(&i.fields),
                }),
            }),
            RealSchemaItem::DirectiveDefinition(d) => gp::SchemaDefinitionItem::DirectiveDefinition(gp::DirectiveDefinition {
                position: m_pos(d.position),
                description: d.description.clone(),
                name: d.name.clone(),
                arguments: m_input_values(&d.arguments),
                repeatable: d.repeatable,
                locations: d.locations.iter().map(m_location).collect(),
            }),
        })
        .collect();
    gp::SchemaDocument { definitions }
}

fn m_selection_set(ss: &graphql_parser::query::SelectionSet<'_, String>) -> gp::SelectionSet {
    gp::SelectionSet {
        span: (m_pos(ss.span.0), m_pos(ss.span.1)),
        items: ss
            .items
            .iter()
            .map(|s| match s {
                RealSelection::Field(f) => gp::Selection::Field(gp::QueryField {
                    position: m_pos(f.position),
                    alias: f.alias.clone(),
                    name: f.name.clone(),
                    arguments: f.arguments.iter().map(|(k, v)| (k.clone(), m_value(v))).collect(),
                    directives: m_directives(&f.directives),
                    selection_set: m_selection_set(&f.selection_set),
                }),
                RealSelection::FragmentSpread(fs) => gp::Selection::FragmentSpread(gp::FragmentSpread {
                    position: m_pos(fs.position),
                    fragment_name: fs.fragment_name.clone(),
                    directives: m_directives(&fs.directives),
                }),
                RealSelection::InlineFragment(i) => gp::Selection::InlineFragment(gp::InlineFragment {
                    position: m_pos(i.position),
                    type_condition: i.type_condition.as_ref().map(m_type_condition),
                    directives: m_directives(&i.directives),
                    selection_set: m_selection_set(&i.selection_set),
                }),
            })
            .collect(),
    }
}

fn m_type_condition(tc: &graphql_parser::query::TypeCondition<'_, String>) -> gp::TypeCondition {
    match tc {
        graphql_parser::query::TypeCondition::On(s) => gp::TypeCondition::On(s.clone()),
    }
}

fn m_variable_defs(vds: &[graphql_parser::query::VariableDefinition<'_, String>]) -> Vec<gp::VariableDefinition> {
    vds.iter()
        .map(|v| gp::VariableDefinition {
            position: m_pos(v.position),
            name: v.name.clone(),
            var_type: m_type(&v.var_type),
            default_value: v.default_value.as_ref().map(m_value),
        })
        .collect()
}

fn m_query(doc: &graphql_parser::query::Document<'_, String>) -> gp::QueryDocument {
    let definitions = doc
        .definitions
        .iter()
        .map(|d| match d {
            RealQueryItem::Operation(op) => gp::QueryDefinition::Operation(match op {
                RealOperation::SelectionSet(ss) => gp::OperationDefinition::SelectionSet(m_selection_set(ss)),
                RealOperation::Query(q) => gp::OperationDefinition::Query(gp::Query {
                    position: m_pos(q.position),
                    name: q.name.clone(),
                    variable_definitions: m_variable_defs(&q.variable_definitions),
                    directives: m_directives(&q.directives),
                    selection_set: m_selection_set(&q.selection_set),
                }),
                RealOperation::Mutation(q) => gp::OperationDefinition::Mutation(gp::Mutation {
                    position: m_pos(q.position),
                    name: q.name.clone(),
                    variable_definitions: m_variable_defs(&q.variable_definitions),
                    directives: m_directives(&q.directives),
                    selection_set: m_selection_set(&q.selection_set),
                }),
                RealOperation::Subscription(q) => gp::OperationDefinition::Subscription(gp::Subscription {
                    position: m_pos(q.position),
                    name: q.name.clone(),
                    variable_definitions: m_variable_defs(&q.variable_definitions),
                    directives: m_directives(&q.directives),
                    selection_set: m_selection_set(&q.selection_set),
                }),
            }),
            RealQueryItem::Fragment(f) => gp::QueryDefinition::Fragment(gp::FragmentDefinition {
                position: m_pos(f.position),
                name: f.name.clone(),
                type_condition: m_type_condition(&f.type_condition),
                directives: m_directives(&f.directives),
                selection_set: m_selection_set(&f.selection_set),
            }),
        })
        .collect();
    gp::QueryDocument { definitions }
}
