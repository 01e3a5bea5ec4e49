use libgraphql_parser::ast;
use libgraphql_parser::compat_graphql_parser_v0_4::from_graphql_parser_query_ast;
use libgraphql_parser::compat_graphql_parser_v0_4::from_graphql_parser_schema_ast;
use libgraphql_parser::compat_graphql_parser_v0_4::gp;
use libgraphql_parser::compat_graphql_parser_v0_4::to_graphql_parser_query_ast;
use libgraphql_parser::compat_graphql_parser_v0_4::to_graphql_parser_schema_ast;
use libgraphql_parser::GraphQLSourceSpan;
use libgraphql_parser::SourcePosition;

fn make_span(line: usize, col: usize) -> GraphQLSourceSpan {
    let p = SourcePosition::new(line, col, None, 0);
    GraphQLSourceSpan::new(p, p)
}

fn zero_span() -> GraphQLSourceSpan {
    make_span(0, 0)
}

fn make_name(value: &str, start: usize, end: usize) -> ast::Name {
    ast::Name {
        value: value.to_string(),
        span: GraphQLSourceSpan::new(
            SourcePosition::new(0, start, None, start),
            SourcePosition::new(0, end, None, end),
        ),
    }
}

fn string_value(s: &str) -> ast::StringValue {
    ast::StringValue { is_block: false, span: zero_span(), syntax: None, value: s.to_string() }
}

fn named_type(name: &str, len: usize, non_null: bool) -> ast::TypeAnnotation {
    ast::TypeAnnotation::Named(ast::NamedTypeAnnotation {
        name: make_name(name, 0, len),
        nullability: if non_null {
            ast::Nullability::NonNull { syntax: None }
        } else {
            ast::Nullability::Nullable
        },
        span: zero_span(),
    })
}

fn leaf_field(name: &str, len: usize) -> ast::Selection {
    ast::Selection::Field(ast::Field {
        alias: None,
        arguments: vec![],
        directives: vec![],
        name: make_name(name, 0, len),
        selection_set: None,
        span: zero_span(),
    })
}

fn pos(line: usize, column: usize) -> graphql_parser::Pos {
    graphql_parser::Pos { line, column }
}

#[test]
fn test_schema_round_trip_object_type() {
    let doc = ast::Document {
        definitions: vec![ast::Definition::TypeDefinition(ast::TypeDefinition::Object(
            ast::ObjectTypeDefinition {
                description: Some(string_value("A user account")),
                directives: vec![ast::DirectiveAnnotation {
                    arguments: vec![],
                    name: make_name("entity", 0, 6),
                    span: zero_span(),
                }],
                fields: vec![
                    ast::FieldDefinition {
                        arguments: vec![],
                        description: None,
                        directives: vec![],
                        field_type: named_type("ID", 2, true),
                        name: make_name("id", 0, 2),
                        span: make_span(2, 2),
                    },
                    ast::FieldDefinition {
                        arguments: vec![],
                        description: None,
                        directives: vec![],
                        field_type: named_type("String", 6, false),
                        name: make_name("email", 0, 5),
                        span: make_span(3, 2),
                    },
                ],
                implements: vec![make_name("Node", 0, 4)],
                name: make_name("User", 0, 4),
                span: make_span(1, 0),
            },
        ))],
        span: zero_span(),
        syntax: None,
    };

    let gp_doc = to_graphql_parser_schema_ast(&doc).into_valid_ast().expect("no unsupported features");
    let rt = from_graphql_parser_schema_ast(&gp_doc);
    assert_eq!(rt.definitions.len(), 1);
    match &rt.definitions[0] {
        ast::Definition::TypeDefinition(ast::TypeDefinition::Object(obj)) => {
            assert_eq!(obj.name.value, "User");
            assert_eq!(obj.description.as_ref().map(|d| d.value.as_str()), Some("A user account"));
            assert_eq!(obj.implements.len(), 1);
            assert_eq!(obj.implements[0].value, "Node");
            assert_eq!(obj.directives.len(), 1);
            assert_eq!(obj.directives[0].name.value, "entity");
            assert_eq!(obj.fields.len(), 2);
            assert_eq!(obj.fields[0].name.value, "id");
            assert_eq!(obj.fields[1].name.value, "email");
            match &obj.fields[0].field_type {
                ast::TypeAnnotation::Named(n) => {
                    assert_eq!(n.name.value, "ID");
                    assert!(matches!(n.nullability, ast::Nullability::NonNull { .. }));
                },
                _ => panic!("Expected Named type for id"),
            }
            match &obj.fields[1].field_type {
                ast::TypeAnnotation::Named(n) => {
                    assert_eq!(n.name.value, "String");
                    assert!(matches!(n.nullability, ast::Nullability::Nullable));
                },
                _ => panic!("Expected Named type for email"),
            }
        },
        _ => panic!("Expected Object type"),
    }
}

#[test]
fn test_schema_round_trip_enum_and_union() {
    let doc = ast::Document {
        definitions: vec![
            ast::Definition::TypeDefinition(ast::TypeDefinition::Enum(ast::EnumTypeDefinition {
                description: None,
                directives: vec![],
                name: make_name("Role", 0, 4),
                span: make_span(0, 0),
                values: vec![
                    ast::EnumValueDefinition {
                        description: None,
                        directives: vec![],
                        name: make_name("ADMIN", 0, 5),
                        span: zero_span(),
                    },
                    ast::EnumValueDefinition {
                        description: None,
                        directives: vec![],
                        name: make_name("USER", 0, 4),
                        span: zero_span(),
                    },
                ],
            })),
            ast::Definition::TypeDefinition(ast::TypeDefinition::Union(ast::UnionTypeDefinition {
                description: Some(string_value("A search result")),
                directives: vec![],
                members: vec![make_name("User", 0, 4), make_name("Post", 0, 4)],
                name: make_name("SearchResult", 0, 12),
                span: make_span(5, 0),
            })),
        ],
        span: zero_span(),
        syntax: None,
    };

    let gp_doc = to_graphql_parser_schema_ast(&doc).into_valid_ast().expect("no unsupported features");
    let rt = from_graphql_parser_schema_ast(&gp_doc);
    assert_eq!(rt.definitions.len(), 2);
    match &rt.definitions[0] {
        ast::Definition::TypeDefinition(ast::TypeDefinition::Enum(e)) => {
            assert_eq!(e.name.value, "Role");
            assert_eq!(e.values.len(), 2);
            assert_eq!(e.values[0].name.value, "ADMIN");
            assert_eq!(e.values[1].name.value, "USER");
        },
        _ => panic!("Expected Enum"),
    }
    match &rt.definitions[1] {
        ast::Definition::TypeDefinition(ast::TypeDefinition::Union(u)) => {
            assert_eq!(u.name.value, "SearchResult");
            assert_eq!(u.description.as_ref().map(|d| d.value.as_str()), Some("A search result"));
            assert_eq!(u.members.len(), 2);
            assert_eq!(u.members[0].value, "User");
            assert_eq!(u.members[1].value, "Post");
        },
        _ => panic!("Expected Union"),
    }
}

#[test]
fn test_schema_round_trip_directive_definition() {
    let doc = ast::Document {
        definitions: vec![ast::Definition::DirectiveDefinition(ast::DirectiveDefinition {
            arguments: vec![ast::InputValueDefinition {
                default_value: Some(ast::Value::String(string_value("n/a"))),
                description: None,
                directives: vec![],
                name: make_name("reason", 0, 6),
                span: zero_span(),
                value_type: named_type("String", 6, false),
            }],
            description: Some(string_value("Marks deprecated")),
            locations: vec![
                ast::DirectiveLocation { kind: ast::DirectiveLocationKind::FieldDefinition, span: zero_span() },
                ast::DirectiveLocation { kind: ast::DirectiveLocationKind::EnumValue, span: zero_span() },
            ],
            name: make_name("deprecated", 0, 10),
            repeatable: true,
            span: make_span(0, 0),
        })],
        span: zero_span(),
        syntax: None,
    };

    let gp_doc = to_graphql_parser_schema_ast(&doc).into_valid_ast().expect("no unsupported features");
    let rt = from_graphql_parser_schema_ast(&gp_doc);
    assert_eq!(rt.definitions.len(), 1);
    match &rt.definitions[0] {
        ast::Definition::DirectiveDefinition(dd) => {
            assert_eq!(dd.name.value, "deprecated");
            assert!(dd.repeatable);
            assert_eq!(dd.description.as_ref().map(|d| d.value.as_str()), Some("Marks deprecated"));
            assert_eq!(dd.arguments.len(), 1);
            assert_eq!(dd.arguments[0].name.value, "reason");
            match &dd.arguments[0].default_value {
                Some(ast::Value::String(s)) => {
                    assert_eq!(s.value.as_str(), "n/a");
                },
                other => panic!("Expected String default, got {other:?}"),
            }
            assert_eq!(dd.locations.len(), 2);
            assert_eq!(dd.locations[0].kind, ast::DirectiveLocationKind::FieldDefinition);
            assert_eq!(dd.locations[1].kind, ast::DirectiveLocationKind::EnumValue);
        },
        _ => panic!("Expected DirectiveDefinition"),
    }
}

#[test]
fn test_query_round_trip_operation() {
    let doc = ast::Document {
        definitions: vec![ast::Definition::OperationDefinition(ast::OperationDefinition {
            description: None,
            directives: vec![],
            name: Some(make_name("GetUser", 0, 7)),
            operation_kind: ast::OperationKind::Query,
            selection_set: ast::SelectionSet {
                selections: vec![ast::Selection::Field(ast::Field {
                    alias: Some(make_name("u", 0, 1)),
                    arguments: vec![ast::Argument {
                        name: make_name("id", 0, 2),
                        span: zero_span(),
                        value: ast::Value::Int(ast::IntValue { span: zero_span(), syntax: None, value: 42 }),
                    }],
                    directives: vec![],
                    name: make_name("user", 0, 4),
                    selection_set: Some(ast::SelectionSet {
                        selections: vec![leaf_field("name", 4)],
                        span: zero_span(),
                    }),
                    span: make_span(1, 2),
                })],
                span: zero_span(),
            },
            shorthand: false,
            span: make_span(0, 0),
            variable_definitions: vec![],
        })],
        span: zero_span(),
        syntax: None,
    };

    let gp_doc = to_graphql_parser_query_ast(&doc).into_valid_ast().expect("no unsupported features");
    let rt = from_graphql_parser_query_ast(&gp_doc);
    assert_eq!(rt.definitions.len(), 1);
    match &rt.definitions[0] {
        ast::Definition::OperationDefinition(op) => {
            assert_eq!(op.name.as_ref().map(|n| n.value.as_str()), Some("GetUser"));
            assert_eq!(op.operation_kind, ast::OperationKind::Query);
            assert_eq!(op.selection_set.selections.len(), 1);
            match &op.selection_set.selections[0] {
                ast::Selection::Field(f) => {
                    assert_eq!(f.name.value, "user");
                    assert_eq!(f.alias.as_ref().map(|a| a.value.as_str()), Some("u"));
                    assert_eq!(f.arguments.len(), 1);
                    assert_eq!(f.arguments[0].name.value, "id");
                    match &f.arguments[0].value {
                        ast::Value::Int(i) => {
                            assert_eq!(i.value, 42);
                        },
                        _ => panic!("Expected Int arg"),
                    }
                    let inner = f.selection_set.as_ref().expect("should have selection_set");
                    assert_eq!(inner.selections.len(), 1);
                    match &inner.selections[0] {
                        ast::Selection::Field(inner_f) => {
                            assert_eq!(inner_f.name.value, "name");
                        },
                        _ => panic!("Expected inner Field"),
                    }
                },
                _ => panic!("Expected Field"),
            }
        },
        _ => panic!("Expected OperationDefinition"),
    }
}

#[test]
fn test_query_round_trip_mutation_with_variables() {
    let doc = ast::Document {
        definitions: vec![ast::Definition::OperationDefinition(ast::OperationDefinition {
            description: None,
            directives: vec![],
            name: Some(make_name("CreateUser", 0, 10)),
            operation_kind: ast::OperationKind::Mutation,
            selection_set: ast::SelectionSet { selections: vec![leaf_field("createUser", 10)], span: zero_span() },
            shorthand: false,
            span: make_span(0, 0),
            variable_definitions: vec![ast::VariableDefinition {
                default_value: Some(ast::Value::String(string_value("Anonymous"))),
                description: None,
                directives: vec![],
                span: zero_span(),
                syntax: None,
                var_type: named_type("String", 6, true),
                variable: make_name("name", 0, 4),
            }],
        })],
        span: zero_span(),
        syntax: None,
    };

    let gp_doc = to_graphql_parser_query_ast(&doc).into_valid_ast().expect("no unsupported features");
    let rt = from_graphql_parser_query_ast(&gp_doc);
    match &rt.definitions[0] {
        ast::Definition::OperationDefinition(op) => {
            assert_eq!(op.operation_kind, ast::OperationKind::Mutation);
            assert_eq!(op.name.as_ref().map(|n| n.value.as_str()), Some("CreateUser"));
            assert_eq!(op.variable_definitions.len(), 1);
            let var = &op.variable_definitions[0];
            assert_eq!(var.variable.value, "name");
            assert!(var.directives.is_empty());
            match &var.var_type {
                ast::TypeAnnotation::Named(n) => {
                    assert_eq!(n.name.value, "String");
                    assert!(matches!(n.nullability, ast::Nullability::NonNull { .. }));
                },
                _ => panic!("Expected Named type"),
            }
            match &var.default_value {
                Some(ast::Value::String(s)) => {
                    assert_eq!(s.value.as_str(), "Anonymous");
                },
                other => panic!("Expected String default, got {other:?}"),
            }
        },
        _ => panic!("Expected OperationDefinition"),
    }
}

#[test]
fn test_query_round_trip_fragment() {
    let doc = ast::Document {
        definitions: vec![ast::Definition::FragmentDefinition(ast::FragmentDefinition {
            description: None,
            directives: vec![ast::DirectiveAnnotation {
                arguments: vec![],
                name: make_name("include", 0, 7),
                span: zero_span(),
            }],
            name: make_name("UserFields", 0, 10),
            selection_set: ast::SelectionSet { selections: vec![leaf_field("email", 5)], span: zero_span() },
            span: make_span(0, 0),
            type_condition: ast::TypeCondition { named_type: make_name("User", 0, 4), span: zero_span() },
        })],
        span: zero_span(),
        syntax: None,
    };

    let gp_doc = to_graphql_parser_query_ast(&doc).into_valid_ast().expect("no unsupported features");
    let rt = from_graphql_parser_query_ast(&gp_doc);
    match &rt.definitions[0] {
        ast::Definition::FragmentDefinition(frag) => {
            assert_eq!(frag.name.value, "UserFields");
            assert_eq!(frag.type_condition.named_type.value, "User");
            assert_eq!(frag.directives.len(), 1);
            assert_eq!(frag.directives[0].name.value, "include");
            assert_eq!(frag.selection_set.selections.len(), 1);
            match &frag.selection_set.selections[0] {
                ast::Selection::Field(f) => {
                    assert_eq!(f.name.value, "email");
                },
                _ => panic!("Expected Field"),
            }
        },
        _ => panic!("Expected FragmentDefinition"),
    }
}

#[test]
fn test_gp_schema_round_trip_lossless() {
    let real = graphql_parser::schema::Document::<String> {
        definitions: vec![
            RealSchemaItem::TypeDefinition(RealTypeDef::Object(graphql_parser::schema::ObjectType {
                position: pos(1, 1),
                description: Some("A node".to_string()),
                name: "User".to_string(),
                implements_interfaces: vec!["Node".to_string()],
                directives: vec![],
                fields: vec![
                    graphql_parser::schema::Field {
                        position: pos(2, 3),
                        description: None,
                        name: "id".to_string(),
                        arguments: vec![],
                        field_type: RealType::NonNullType(Box::new(RealType::NamedType("ID".to_string()))),
                        directives: vec![],
                    },
                    graphql_parser::schema::Field {
                        position: pos(3, 3),
                        description: None,
                        name: "name".to_string(),
                        arguments: vec![],
                        field_type: RealType::NamedType("String".to_string()),
                        directives: vec![],
                    },
                ],
            })),
            RealSchemaItem::TypeDefinition(RealTypeDef::Enum(graphql_parser::schema::EnumType {
                position: pos(6, 1),
                description: None,
                name: "Role".to_string(),
                directives: vec![],
                values: vec![
                    graphql_parser::schema::EnumValue {
                        position: pos(7, 3),
                        description: None,
                        name: "ADMIN".to_string(),
                        directives: vec![],
                    },
                    graphql_parser::schema::EnumValue {
                        position: pos(8, 3),
                        description: None,
                        name: "USER".to_string(),
                        directives: vec![],
                    },
                ],
            })),
            RealSchemaItem::TypeDefinition(RealTypeDef::Union(graphql_parser::schema::UnionType {
                position: pos(11, 1),
                description: Some("Result".to_string()),
                name: "SearchResult".to_string(),
                directives: vec![],
                types: vec!["User".to_string(), "Post".to_string()],
            })),
        ],
    };
    let gp_doc = m_schema(&real);

    let ast_doc = from_graphql_parser_schema_ast(&gp_doc);
    let rt = to_graphql_parser_schema_ast(&ast_doc).into_valid_ast().expect("round-trip should not fail");
    assert_eq!(rt, gp_doc);
}

#[test]
fn test_gp_query_round_trip_lossless() {
    let real = graphql_parser::query::Document::<String> {
        definitions: vec![
            RealQueryItem::Operation(RealOperation::Query(graphql_parser::query::Query {
                position: pos(1, 1),
                name: Some("GetUser".to_string()),
                variable_definitions: vec![],
                directives: vec![],
                selection_set: graphql_parser::query::SelectionSet {
                    span: (pos(1, 16), pos(4, 2)),
                    items: vec![RealSelection::Field(graphql_parser::query::Field {
                        position: pos(2, 3),
                        alias: Some("u".to_string()),
                        name: "user".to_string(),
                        arguments: vec![(
                            "id".to_string(),
                            graphql_parser::query::Value::Int(graphql_parser::query::Number::from(42_i32)),
                        )],
                        directives: vec![],
                        selection_set: graphql_parser::query::SelectionSet {
                            span: (pos(2, 20), pos(4, 4)),
                            items: vec![RealSelection::Field(graphql_parser::query::Field {
                                position: pos(3, 5),
                                alias: None,
                                name: "name".to_string(),
                                arguments: vec![],
                                directives: vec![],
                                selection_set: graphql_parser::query::SelectionSet { span: (pos(3, 5), pos(3, 5)), items: vec![] },
                            })],
                        },
                    })],
                },
            })),
            RealQueryItem::Fragment(graphql_parser::query::FragmentDefinition {
                position: pos(6, 1),
                name: "UserFields".to_string(),
                type_condition: graphql_parser::query::TypeCondition::On("User".to_string()),
                directives: vec![],
                selection_set: graphql_parser::query::SelectionSet {
                    span: (pos(6, 30), pos(8, 2)),
                    items: vec![RealSelection::Field(graphql_parser::query::Field {
                        position: pos(7, 3),
                        alias: None,
                        name: "email".to_string(),
                        arguments: vec![],
                        directives: vec![],
                        selection_set: graphql_parser::query::SelectionSet { span: (pos(7, 3), pos(7, 3)), items: vec![] },
                    })],
                },
            }),
        ],
    };
    let gp_doc = m_query(&real);

    let ast_doc = from_graphql_parser_query_ast(&gp_doc);
    let rt = to_graphql_parser_query_ast(&ast_doc).into_valid_ast().expect("round-trip should not fail");
    assert_eq!(rt, gp_doc);
}

#[test]
fn gp_round_trip_of_parsed_documents() {
    let schema = "\
\"Things\"
type Thing implements Node & Named @key(fields: \"id\") {
  id: ID!
  tags(first: Int = 10, filter: TagFilter = {b: 1, a: [true, null]}): [String!]!
}

directive @key(fields: String!) repeatable on OBJECT | INTERFACE

extend enum Role @deprecated {
  GUEST
}

schema {
  query: Query
  mutation: Mutation
}
";
    let gp_doc = m_schema(&graphql_parser::parse_schema::<String>(schema).expect("valid schema"));
    let ast_doc = libgraphql_parser::compat_graphql_parser_v0_4::from_graphql_parser_schema_ast_with_source(
        &gp_doc, schema,
    );
    let rt = to_graphql_parser_schema_ast(&ast_doc).into_valid_ast().expect("round-trip should not fail");
    assert_eq!(rt, gp_doc);

    let query = "\
query Q($id: ID = 3, $f: [Float!]) @live {
  a: user(id: $id, opts: {z: 1.5, y: ENUM}) {
    ...F @include(if: true)
    ... on Admin { role }
    ... { name }
  }
}

fragment F on User { email }

{ shorthand }
";
    let gp_doc = m_query(&graphql_parser::parse_query::<String>(query).expect("valid query"));
    let ast_doc = libgraphql_parser::compat_graphql_parser_v0_4::from_graphql_parser_query_ast_with_source(
        &gp_doc, query,
    );
    let rt = to_graphql_parser_query_ast(&ast_doc).into_valid_ast().expect("round-trip should not fail");
    assert_eq!(rt, gp_doc);
}
// ── graphql_parser documents in this crate's model ──────────────────

use graphql_parser::query::Definition as RealQueryItem;
use graphql_parser::query::OperationDefinition as RealOperation;
use graphql_parser::query::Selection as RealSelection;
use graphql_parser::query::Value as RealValue;
use graphql_parser::schema::Definition as RealSchemaItem;
use graphql_parser::schema::DirectiveLocation as RealLocation;
use graphql_parser::schema::Type as RealType;
use graphql_parser::schema::TypeDefinition as RealTypeDef;
use graphql_parser::schema::TypeExtension as RealTypeExt;


type RealPos = graphql_parser::Pos;

fn m_pos(p: RealPos) -> gp::Pos {
    gp::Pos { line: p.line, column: p.column }
}

fn m_value(v: &graphql_parser::query::Value<'_, String>) -> gp::Value {
    match v {
        RealValue::Variable(s) => gp::Value::Variable(s.clone()),
        RealValue::Int(n) => gp::Value::Int(n.as_i64().unwrap()),
        RealValue::Float(f) => gp::Value::Float(f.to_string()),
        RealValue::String(s) => gp::Value::String(s.clone()),
        RealValue::Boolean(b) => gp::Value::Boolean(*b),
        RealValue::Null => gp::Value::Null,
        RealValue::Enum(s) => gp::Value::Enum(s.clone()),
        RealValue::List(items) => gp::Value::List(items.iter().map(m_value).collect()),
        RealValue::Object(map) => gp::Value::Object(map.iter().map(|(k, v)| (k.clone(), m_value(v))).collect()),
    }
}

fn m_type(t: &graphql_parser::schema::Type<'_, String>) -> gp::Type {
    match t {
        RealType::NamedType(s) => gp::Type::NamedType(s.clone()),
        RealType::ListType(b) => gp::Type::ListType(Box::new(m_type(b))),
        RealType::NonNullType(b) => gp::Type::NonNullType(Box::new(m_type(b))),
    }
}

fn m_directives(ds: &[graphql_parser::schema::Directive<'_, String>]) -> Vec<gp::Directive> {
    ds.iter()
        .map(|d| gp::Directive {
            position: m_pos(d.position),
            name: d.name.clone(),
            arguments: d.arguments.iter().map(|(k, v)| (k.clone(), m_value(v))).collect(),
        })
        .collect()
}

fn m_input_values(ivs: &[graphql_parser::schema::InputValue<'_, String>]) -> Vec<gp::InputValue> {
    ivs.iter()
        .map(|iv| gp::InputValue {
            position: m_pos(iv.position),
            description: iv.description.clone(),
            name: iv.name.clone(),
            value_type: m_type(&iv.value_type),
            default_value: iv.default_value.as_ref().map(m_value),
            directives: m_directives(&iv.directives),
        })
        .collect()
}

fn m_fields(fs: &[graphql_parser::schema::Field<'_, String>]) -> Vec<gp::Field> {
    fs.iter()
        .map(|f| gp::Field {
            position: m_pos(f.position),
            description: f.description.clone(),
            name: f.name.clone(),
            arguments: m_input_values(&f.arguments),
            field_type: m_type(&f.field_type),
            directives: m_directives(&f.directives),
        })
        .collect()
}

fn m_enum_values(evs: &[graphql_parser::schema::EnumValue<'_, String>]) -> Vec<gp::EnumValue> {
    evs.iter()
        .map(|e| gp::EnumValue {
            position: m_pos(e.position),
            description: e.description.clone(),
            name: e.name.clone(),
            directives: m_directives(&e.directives),
        })
        .collect()
}

fn m_location(l: &graphql_parser::schema::DirectiveLocation) -> gp::DirectiveLocation {
    match l {
        RealLocation::Query => gp::DirectiveLocation::Query,
        RealLocation::Mutation => gp::DirectiveLocation::Mutation,
        RealLocation::Subscription => gp::DirectiveLocation::Subscription,
        RealLocation::Field => gp::DirectiveLocation::Field,
        RealLocation::FragmentDefinition => gp::DirectiveLocation::FragmentDefinition,
        RealLocation::FragmentSpread => gp::DirectiveLocation::FragmentSpread,
        RealLocation::InlineFragment => gp::DirectiveLocation::InlineFragment,
        RealLocation::Schema => gp::DirectiveLocation::Schema,
        RealLocation::Scalar => gp::DirectiveLocation::Scalar,
        RealLocation::Object => gp::DirectiveLocation::Object,
        RealLocation::FieldDefinition => gp::DirectiveLocation::FieldDefinition,
        RealLocation::ArgumentDefinition => gp::DirectiveLocation::ArgumentDefinition,
        RealLocation::Interface => gp::DirectiveLocation::Interface,
        RealLocation::Union => gp::DirectiveLocation::Union,
        RealLocation::Enum => gp::DirectiveLocation::Enum,
        RealLocation::EnumValue => gp::DirectiveLocation::EnumValue,
        RealLocation::InputObject => gp::DirectiveLocation::InputObject,
        RealLocation::InputFieldDefinition => gp::DirectiveLocation::InputFieldDefinition,
        RealLocation::VariableDefinition => gp::DirectiveLocation::VariableDefinition,
    }
}

fn m_schema(doc: &graphql_parser::schema::Document<'_, String>) -> gp::SchemaDocument {
    let definitions = doc
        .definitions
        .iter()
        .map(|d| match d {
            RealSchemaItem::SchemaDefinition(s) => gp::SchemaDefinitionItem::SchemaDefinition(gp::SchemaDefinition {
                position: m_pos(s.position),
                directives: m_directives(&s.directives),
                query: s.query.clone(),
                mutation: s.mutation.clone(),
                subscription: s.subscription.clone(),
            }),
            RealSchemaItem::TypeDefinition(t) => gp::SchemaDefinitionItem::TypeDefinition(match t {
                RealTypeDef::Scalar(s) => gp::TypeDefinition::Scalar(gp::ScalarType {
                    position: m_pos(s.position),
                    description: s.description.clone(),
                    name: s.name.clone(),
                    directives: m_directives(&s.directives),
                }),
                RealTypeDef::Object(o) => gp::TypeDefinition::Object(gp::ObjectType {
                    position: m_pos(o.position),
                    description: o.description.clone(),
                    name: o.name.clone(),
                    implements_interfaces: o.implements_interfaces.clone(),
                    directives: m_directives(&o.directives),
                    fields: m_fields(&o.fields),
                }),
                RealTypeDef::Interface(o) => gp::TypeDefinition::Interface(gp::InterfaceType {
                    position: m_pos(o.position),
                    description: o.description.clone(),
                    name: o.name.clone(),
                    implements_interfaces: o.implements_interfaces.clone(),
                    directives: m_directives(&o.directives),
                    fields: m_fields(&o.fields),
                }),
                RealTypeDef::Union(u) => gp::TypeDefinition::Union(gp::UnionType {
                    position: m_pos(u.position),
                    description: u.description.clone(),
                    name: u.name.clone(),
                    directives: m_directives(&u.directives),
                    types: u.types.clone(),
                }),
                RealTypeDef::Enum(e) => gp::TypeDefinition::Enum(gp::EnumType {
                    position: m_pos(e.position),
                    description: e.description.clone(),
                    name: e.name.clone(),
                    directives: m_directives(&e.directives),
                    values: m_enum_values(&e.values),
                }),
                RealTypeDef::InputObject(i) => gp::TypeDefinition::InputObject(gp::InputObjectType {
                    position: m_pos(i.position),
                    description: i.description.clone(),
                    name: i.name.clone(),
                    directives: m_directives(&i.directives),
                    fields: m_input_values(&i.fields),
                }),
            }),
            RealSchemaItem::TypeExtension(t) => gp::SchemaDefinitionItem::TypeExtension(match t {
                RealTypeExt::Scalar(s) => gp::TypeExtension::Scalar(gp::ScalarTypeExtension {
                    position: m_pos(s.position),
                    name: s.name.clone(),
                    directives: m_directives(&s.directives),
                }),
                RealTypeExt::Object(o) => gp::TypeExtension::Object(gp::ObjectTypeExtension {
                    position: m_pos(o.position),
                    name: o.name.clone(),
                    implements_interfaces: o.implements_interfaces.clone(),
                    directives: m_directives(&o.directives),
                    fields: m_fields(&o.fields),
                }),
                RealTypeExt::Interface(o) => gp::TypeExtension::Interface(gp::InterfaceTypeExtension {
                    position: m_pos(o.position),
                    name: o.name.clone(),
                    implements_interfaces: o.implements_interfaces.clone(),
                    directives: m_directives(&o.directives),
                    fields: m_fields(&o.fields),
                }),
                RealTypeExt::Union(u) => gp::TypeExtension::Union(gp::UnionTypeExtension {
                    position: m_pos(u.position),
                    name: u.name.clone(),
                    directives: m_directives(&u.directives),
                    types: u.types.clone(),
                }),
                RealTypeExt::Enum(e) => gp::TypeExtension::Enum(gp::EnumTypeExtension {
                    position: m_pos(e.position),
                    name: e.name.clone(),
                    directives: m_directives(&e.directives),
                    values: m_enum_values(&e.values),
                }),
                RealTypeExt::InputObject(i) => gp::TypeExtension::InputObject(gp::InputObjectTypeExtension {
                    position: m_pos(i.position),
                    name: i.name.clone(),
                    directives: m_directives(&i.directives),
                    fields: m_input_values(&i.fields),
                }),
            }),
            RealSchemaItem::DirectiveDefinition(d) => gp::SchemaDefinitionItem::DirectiveDefinition(gp::DirectiveDefinition {
                position: m_pos(d.position),
                description: d.description.clone(),
                name: d.name.clone(),
                arguments: m_input_values(&d.arguments),
                repeatable: d.repeatable,
                locations: d.locations.iter().map(m_location).collect(),
            }),
        })
        .collect();
    gp::SchemaDocument { definitions }
}

fn m_selection_set(ss: &graphql_parser::query::SelectionSet<'_, String>) -> gp::SelectionSet {
    gp::SelectionSet {
        span: (m_pos(ss.span.0), m_pos(ss.span.1)),
        items: ss
            .items
            .iter()
            .map(|s| match s {
                RealSelection::Field(f) => gp::Selection::Field(gp::QueryField {
                    position: m_pos(f.position),
                    alias: f.alias.clone(),
                    name: f.name.clone(),
                    arguments: f.arguments.iter().map(|(k, v)| (k.clone(), m_value(v))).collect(),
                    directives: m_directives(&f.directives),
                    selection_set: m_selection_set(&f.selection_set),
                }),
                RealSelection::FragmentSpread(fs) => gp::Selection::FragmentSpread(gp::FragmentSpread {
                    position: m_pos(fs.position),
                    fragment_name: fs.fragment_name.clone(),
                    directives: m_directives(&fs.directives),
                }),
                RealSelection::InlineFragment(i) => gp::Selection::InlineFragment(gp::InlineFragment {
                    position: m_pos(i.position),
                    type_condition: i.type_condition.as_ref().map(m_type_condition),
                    directives: m_directives(&i.directives),
                    selection_set: m_selection_set(&i.selection_set),
                }),
            })
            .collect(),
    }
}

fn m_type_condition(tc: &graphql_parser::query::TypeCondition<'_, String>) -> gp::TypeCondition {
    match tc {
        graphql_parser::query::TypeCondition::On(s) => gp::TypeCondition::On(s.clone()),
    }
}

fn m_variable_defs(vds: &[graphql_parser::query::VariableDefinition<'_, String>]) -> Vec<gp::VariableDefinition> {
    vds.iter()
        .map(|v| gp::VariableDefinition {
            position: m_pos(v.position),
            name: v.name.clone(),
            var_type: m_type(&v.var_type),
            default_value: v.default_value.as_ref().map(m_value),
        })
        .collect()
}

fn m_query(doc: &graphql_parser::query::Document<'_, String>) -> gp::QueryDocument {
    let definitions = doc
        .definitions
        .iter()
        .map(|d| match d {
            RealQueryItem::Operation(op) => gp::QueryDefinition::Operation(match op {
                RealOperation::SelectionSet(ss) => gp::OperationDefinition::SelectionSet(m_selection_set(ss)),
                RealOperation::Query(q) => gp::OperationDefinition::Query(gp::Query {
                    position: m_pos(q.position),
                    name: q.name.clone(),
                    variable_definitions: m_variable_defs(&q.variable_definitions),
                    directives: m_directives(&q.directives),
                    selection_set: m_selection_set(&q.selection_set),
                }),
                RealOperation::Mutation(q) => gp::OperationDefinition::Mutation(gp::Mutation {
                    position: m_pos(q.position),
                    name: q.name.clone(),
                    variable_definitions: m_variable_defs(&q.variable_definitions),
                    directives: m_directives(&q.directives),
                    selection_set: m_selection_set(&q.selection_set),
                }),
                RealOperation::Subscription(q) => gp::OperationDefinition::Subscription(gp::Subscription {
                    position: m_pos(q.position),
                    name: q.name.clone(),
                    variable_definitions: m_variable_defs(&q.variable_definitions),
                    directives: m_directives(&q.directives),
                    selection_set: m_selection_set(&q.selection_set),
                }),
            }),
            RealQueryItem::Fragment(f) => gp::QueryDefinition::Fragment(gp::FragmentDefinition {
                position: m_pos(f.position),
                name: f.name.clone(),
                type_condition: m_type_condition(&f.type_condition),
                directives: m_directives(&f.directives),
                selection_set: m_selection_set(&f.selection_set),
            }),
        })
        .collect();
    gp::QueryDocument { definitions }
}
