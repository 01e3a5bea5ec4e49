use libgraphql_parser::compat_graphql_parser_v0_4::gp;
use libgraphql_parser::compat_graphql_parser_v0_4::to_graphql_parser_query_ast;
use libgraphql_parser::compat_graphql_parser_v0_4::to_graphql_parser_schema_ast;
use libgraphql_parser::GraphQLParser;

/// Asserts that two model documents are equal, printing the differing lines
/// of their pretty-printed forms otherwise.
fn assert_ast_eq<T: std::fmt::Debug + PartialEq>(actual: &T, expected: &T, source: &str, kind: &str) {
    if actual == expected {
        return;
    }
    let a = format!("{actual:#?}");
    let e = format!("{expected:#?}");
    let al: Vec<&str> = a.lines().collect();
    let el: Vec<&str> = e.lines().collect();
    let mut diff = String::new();
    for i in 0..al.len().max(el.len()) {
        let x = al.get(i).copied().unwrap_or("");
        let y = el.get(i).copied().unwrap_or("");
        if x != y {
            diff.push_str(&format!("  line {i}:\n    ours:     {x}\n    expected: {y}\n"));
        }
    }
    panic!("\n\nGround-truth {kind} mismatch.\n\nSource:\n{source}\n\nDiffering lines:\n{diff}");
}

/// Parses `source` with `graphql_parser` and with this crate (through the
/// compat layer) and asserts that the two schema documents are the same.
fn assert_schema_ground_truth(source: &str) {
    let real = graphql_parser::schema::parse_schema::<String>(source)
        .unwrap_or_else(|e| panic!("graphql_parser failed to parse schema:\n{e}\n\nSource:\n{source}"))
        .into_static();
    let expected = m_schema(&real);
    let ours = GraphQLParser::new(source).parse_schema_document();
    assert!(
        !ours.has_errors(),
        "Our parser reported errors:\n{}\n\nSource:\n{source}",
        ours.format_errors(Some(source)),
    );
    let doc = ours.into_valid_ast().expect("valid_ast should be Some when no errors");
    let actual = to_graphql_parser_schema_ast(&doc).into_ast();
    assert_ast_eq(&actual, &expected, source, "schema");
}

/// Parses `source` with `graphql_parser` and with this crate (through the
/// compat layer) and asserts that the two query documents are the same.
fn assert_query_ground_truth(source: &str) {
    let real = graphql_parser::query::parse_query::<String>(source)
        .unwrap_or_else(|e| panic!("graphql_parser failed to parse query:\n{e}\n\nSource:\n{source}"))
        .into_static();
    let expected = m_query(&real);
    let ours = GraphQLParser::new(source).parse_executable_document();
    assert!(
        !ours.has_errors(),
        "Our parser reported errors:\n{}\n\nSource:\n{source}",
        ours.format_errors(Some(source)),
    );
    let doc = ours.into_valid_ast().expect("valid_ast should be Some when no errors");
    let actual = to_graphql_parser_query_ast(&doc).into_ast();
    assert_ast_eq(&actual, &expected, source, "query");
}

// ── graphql_parser documents in this crate's model ──────────────────

use graphql_parser::query::Definition as RealQueryItem;
use graphql_parser::query::OperationDefinition as RealOperation;
use graphql_parser::query::Selection as RealSelection;
use graphql_parser::query::Value as RealValue;
use graphql_parser::schema::Definition as RealSchemaItem;
use graphql_parser::schema::DirectiveLocation as RealLocation;
use graphql_parser::schema::Type as RealType;
use graphql_parser::schema::TypeDefinition as RealTypeDef;
use graphql_parser::schema::TypeExtension as RealTypeExt;


type RealPos = graphql_parser::Pos;

fn m_pos(p: RealPos) -> gp::Pos {
    gp::Pos { line: p.line, column: p.column }
}

fn m_value(v: &graphql_parser::query::Value<'_, String>) -> gp::Value {
    match v {
        RealValue::Variable(s) => gp::Value::Variable(s.clone()),
        RealValue::Int(n) => gp::Value::Int(n.as_i64().unwrap()),
        RealValue::Float(f) => gp::Value::Float(f.to_string()),
        RealValue::String(s) => gp::Value::String(s.clone()),
        RealValue::Boolean(b) => gp::Value::Boolean(*b),
        RealValue::Null => gp::Value::Null,
        RealValue::Enum(s) => gp::Value::Enum(s.clone()),
        RealValue::List(items) => gp::Value::List(items.iter().map(m_value).collect()),
        RealValue::Object(map) => gp::Value::Object(map.iter().map(|(k, v)| (k.clone(), m_value(v))).collect()),
    }
}

fn m_type(t: &graphql_parser::schema::Type<'_, String>) -> gp::Type {
    match t {
        RealType::NamedType(s) => gp::Type::NamedType(s.clone()),
        RealType::ListType(b) => gp::Type::ListType(Box::new(m_type(b))),
        RealType::NonNullType(b) => gp::Type::NonNullType(Box::new(m_type(b))),
    }
}

fn m_directives(ds: &[graphql_parser::schema::Directive<'_, String>]) -> Vec<gp::Directive> {
    ds.iter()
        .map(|d| gp::Directive {
            position: m_pos(d.position),
            name: d.name.clone(),
            arguments: d.arguments.iter().map(|(k, v)| (k.clone(), m_value(v))).collect(),
        })
        .collect()
}

fn m_input_values(ivs: &[graphql_parser::schema::InputValue<'_, String>]) -> Vec<gp::InputValue> {
    ivs.iter()
        .map(|iv| gp::InputValue {
            position: m_pos(iv.position),
            description: iv.description.clone(),
            name: iv.name.clone(),
            value_type: m_type(&iv.value_type),
            default_value: iv.default_value.as_ref().map(m_value),
            directives: m_directives(&iv.directives),
        })
        .collect()
}

fn m_fields(fs: &[graphql_parser::schema::Field<'_, String>]) -> Vec<gp::Field> {
    fs.iter()
        .map(|f| gp::Field {
            position: m_pos(f.position),
            description: f.description.clone(),
            name: f.name.clone(),
            arguments: m_input_values(&f.arguments),
            field_type: m_type(&f.field_type),
            directives: m_directives(&f.directives),
        })
        .collect()
}

fn m_enum_values(evs: &[graphql_parser::schema::EnumValue<'_, String>]) -> Vec<gp::EnumValue> {
    evs.iter()
        .map(|e| gp::EnumValue {
            position: m_pos(e.position),
            description: e.description.clone(),
            name: e.name.clone(),
            directives: m_directives(&e.directives),
        })
        .collect()
}

fn m_location(l: &graphql_parser::schema::DirectiveLocation) -> gp::DirectiveLocation {
    match l {
        RealLocation::Query => gp::DirectiveLocation::Query,
        RealLocation::Mutation => gp::DirectiveLocation::Mutation,
        RealLocation::Subscription => gp::DirectiveLocation::Subscription,
        RealLocation::Field => gp::DirectiveLocation::Field,
        RealLocation::FragmentDefinition => gp::DirectiveLocation::FragmentDefinition,
        RealLocation::FragmentSpread => gp::DirectiveLocation::FragmentSpread,
        RealLocation::InlineFragment => gp::DirectiveLocation::InlineFragment,
        RealLocation::Schema => gp::DirectiveLocation::Schema,
        RealLocation::Scalar => gp::DirectiveLocation::Scalar,
        RealLocation::Object => gp::DirectiveLocation::Object,
        RealLocation::FieldDefinition => gp::DirectiveLocation::FieldDefinition,
        RealLocation::ArgumentDefinition => gp::DirectiveLocation::ArgumentDefinition,
        RealLocation::Interface => gp::DirectiveLocation::Interface,
        RealLocation::Union => gp::DirectiveLocation::Union,
        RealLocation::Enum => gp::DirectiveLocation::Enum,
        RealLocation::EnumValue => gp::DirectiveLocation::EnumValue,
        RealLocation::InputObject => gp::DirectiveLocation::InputObject,
        RealLocation::InputFieldDefinition => gp::DirectiveLocation::InputFieldDefinition,
        RealLocation::VariableDefinition => gp::DirectiveLocation::VariableDefinition,
    }
}

fn m_schema(doc: &graphql_parser::schema::Document<'_, String>) -> gp::SchemaDocument {
    let definitions = doc
        .definitions
        .iter()
        .map(|d| match d {
            RealSchemaItem::SchemaDefinition(s) => gp::SchemaDefinitionItem::SchemaDefinition(gp::SchemaDefinition {
                position: m_pos(s.position),
                directives: m_directives(&s.directives),
                query: s.query.clone(),
                mutation: s.mutation.clone(),
                subscription: s.subscription.clone(),
            }),
            RealSchemaItem::TypeDefinition(t) => gp::SchemaDefinitionItem::TypeDefinition(match t {
                RealTypeDef::Scalar(s) => gp::TypeDefinition::Scalar(gp::ScalarType {
                    position: m_pos(s.position),
                    description: s.description.clone(),
                    name: s.name.clone(),
                    directives: m_directives(&s.directives),
                }),
                RealTypeDef::Object(o) => gp::TypeDefinition::Object(gp::ObjectType {
                    position: m_pos(o.position),
                    description: o.description.clone(),
                    name: o.name.clone(),
                    implements_interfaces: o.implements_interfaces.clone(),
                    directives: m_directives(&o.directives),
                    fields: m_fields(&o.fields),
                }),
                RealTypeDef::Interface(o) => gp::TypeDefinition::Interface(gp::InterfaceType {
                    position: m_pos(o.position),
                    description: o.description.clone(),
                    name: o.name.clone(),
                    implements_interfaces: o.implements_interfaces.clone(),
                    directives: m_directives(&o.directives),
                    fields: m_fields(&o.fields),
                }),
                RealTypeDef::Union(u) => gp::TypeDefinition::Union(gp::UnionType {
                    position: m_pos(u.position),
                    description: u.description.clone(),
                    name: u.name.clone(),
                    directives: m_directives(&u.directives),
                    types: u.types.clone(),
                }),
                RealTypeDef::Enum(e) => gp::TypeDefinition::Enum(gp::EnumType {
                    position: m_pos(e.position),
                    description: e.description.clone(),
                    name: e.name.clone(),
                    directives: m_directives(&e.directives),
                    values: m_enum_values(&e.values),
                }),
                RealTypeDef::InputObject(i) => gp::TypeDefinition::InputObject(gp::InputObjectType {
                    position: m_pos(i.position),
                    description: i.description.clone(),
                    name: i.name.clone(),
                    directives: m_directives(&i.directives),
                    fields: m_input_values(&i.fields),
                }),
            }),
            RealSchemaItem::TypeExtension(t) => gp::SchemaDefinitionItem::TypeExtension(match t {
                RealTypeExt::Scalar(s) => gp::TypeExtension::Scalar(gp::ScalarTypeExtension {
                    position: m_pos(s.position),
                    name: s.name.clone(),
                    directives: m_directives(&s.directives),
                }),
                RealTypeExt::Object(o) => gp::TypeExtension::Object(gp::ObjectTypeExtension {
                    position: m_pos(o.position),
                    name: o.name.clone(),
                    implements_interfaces: o.implements_interfaces.clone(),
                    directives: m_directives(&o.directives),
                    fields: m_fields(&o.fields),
                }),
                RealTypeExt::Interface(o) => gp::TypeExtension::Interface(gp::InterfaceTypeExtension {
                    position: m_pos(o.position),
                    name: o.name.clone(),
                    implements_interfaces: o.implements_interfaces.clone(),
                    directives: m_directives(&o.directives),
                    fields: m_fields(&o.fields),
                }),
                RealTypeExt::Union(u) => gp::TypeExtension::Union(gp::UnionTypeExtension {
                    position: m_pos(u.position),
                    name: u.name.clone(),
                    directives: m_directives(&u.directives),
                    types: u.types.clone(),
                }),
                RealTypeExt::Enum(e) => gp::TypeExtension::Enum(gp::EnumTypeExtension {
                    position: m_pos(e.position),
                    name: e.name.clone(),
                    directives: m_directives(&e.directives),
                    values: m_enum_values(&e.values),
                }),
                RealTypeExt::InputObject(i) => gp::TypeExtension::InputObject(gp::InputObjectTypeExtension {
                    position: m_pos(i.position),
                    name: i.name.clone(),
                    directives: m_directives(&i.directives),
                    fields: m_input_values(&i.fields),
                }),
            }),
            RealSchemaItem::DirectiveDefinition(d) => gp::SchemaDefinitionItem::DirectiveDefinition(gp::DirectiveDefinition {
                position: m_pos(d.position),
                description: d.description.clone(),
                name: d.name.clone(),
                arguments: m_input_values(&d.arguments),
                repeatable: d.repeatable,
                locations: d.locations.iter().map(m_location).collect(),
            }),
        })
        .collect();
    gp::SchemaDocument { definitions }
}

fn m_selection_set(ss: &graphql_parser::query::SelectionSet<'_, String>) -> gp::SelectionSet {
    gp::SelectionSet {
        span: (m_pos(ss.span.0), m_pos(ss.span.1)),
        items: ss
            .items
            .iter()
            .map(|s| match s {
                RealSelection::Field(f) => gp::Selection::Field(gp::QueryField {
                    position: m_pos(f.position),
                    alias: f.alias.clone(),
                    name: f.name.clone(),
                    arguments: f.arguments.iter().map(|(k, v)| (k.clone(), m_value(v))).collect(),
                    directives: m_directives(&f.directives),
                    selection_set: m_selection_set(&f.selection_set),
                }),
                RealSelection::FragmentSpread(fs) => gp::Selection::FragmentSpread(gp::FragmentSpread {
                    position: m_pos(fs.position),
                    fragment_name: fs.fragment_name.clone(),
                    directives: m_directives(&fs.directives),
                }),
                RealSelection::InlineFragment(i) => gp::Selection::InlineFragment(gp::InlineFragment {
                    position: m_pos(i.position),
                    type_condition: i.type_condition.as_ref().map(m_type_condition),
                    directives: m_directives(&i.directives),
                    selection_set: m_selection_set(&i.selection_set),
                }),
            })
            .collect(),
    }
}

fn m_type_condition(tc: &graphql_parser::query::TypeCondition<'_, String>) -> gp::TypeCondition {
    match tc {
        graphql_parser::query::TypeCondition::On(s) => gp::TypeCondition::On(s.clone()),
    }
}

fn m_variable_defs(vds: &[graphql_parser::query::VariableDefinition<'_, String>]) -> Vec<gp::VariableDefinition> {
    vds.iter()
        .map(|v| gp::VariableDefinition {
            position: m_pos(v.position),
            name: v.name.clone(),
            var_type: m_type(&v.var_type),
            default_value: v.default_value.as_ref().map(m_value),
        })
        .collect()
}

fn m_query(doc: &graphql_parser::query::Document<'_, String>) -> gp::QueryDocument {
    let definitions = doc
        .definitions
        .iter()
        .map(|d| match d {
            RealQueryItem::Operation(op) => gp::QueryDefinition::Operation(match op {
                RealOperation::SelectionSet(ss) => gp::OperationDefinition::SelectionSet(m_selection_set(ss)),
                RealOperation::Query(q) => gp::OperationDefinition::Query(gp::Query {
                    position: m_pos(q.position),
                    name: q.name.clone(),
                    variable_definitions: m_variable_defs(&q.variable_definitions),
                    directives: m_directives(&q.directives),
                    selection_set: m_selection_set(&q.selection_set),
                }),
                RealOperation::Mutation(q) => gp::OperationDefinition::Mutation(gp::Mutation {
                    position: m_pos(q.position),
                    name: q.name.clone(),
                    variable_definitions: m_variable_defs(&q.variable_definitions),
                    directives: m_directives(&q.directives),
                    selection_set: m_selection_set(&q.selection_set),
                }),
                RealOperation::Subscription(q) => gp::OperationDefinition::Subscription(gp::Subscription {
                    position: m_pos(q.position),
                    name: q.name.clone(),
                    variable_definitions: m_variable_defs(&q.variable_definitions),
                    directives: m_directives(&q.directives),
                    selection_set: m_selection_set(&q.selection_set),
                }),
            }),
            RealQueryItem::Fragment(f) => gp::QueryDefinition::Fragment(gp::FragmentDefinition {
                position: m_pos(f.position),
                name: f.name.clone(),
                type_condition: m_type_condition(&f.type_condition),
                directives: m_directives(&f.directives),
                selection_set: m_selection_set(&f.selection_set),
            }),
        })
        .collect();
    gp::QueryDocument { definitions }
}

// ─────────────────────────────────────────────
// Schema ground-truth tests
// ─────────────────────────────────────────────

/// Simple object type with fields and no descriptions.
///
/// Validates basic type/field parsing and position
/// tracking against `graphql_parser`.
#[test]
fn test_schema_ground_truth_simple_object() {
    assert_schema_ground_truth(
        "\
type User {
  id: ID!
  name: String
  age: Int
}
",
    );
}

/// Object type with described fields: `graphql_parser`
/// puts a field's position before its description.
#[test]
fn test_schema_ground_truth_described_fields() {
    assert_schema_ground_truth(
        "\
type User {
  \"The unique identifier\"
  id: ID!
  \"The user's display name\"
  name: String
}
",
    );
}

/// Scalar type with a directive.
///
/// Validates scalar definition + directive argument
/// conversion.
#[test]
fn test_schema_ground_truth_scalar_with_directive() {
    assert_schema_ground_truth(
        "\
scalar DateTime @specifiedBy(url: \"https://scalars.graphql.org/andimarek/date-time\")
",
    );
}

/// Enum type with described values, positioned at their
/// descriptions.
#[test]
fn test_schema_ground_truth_enum_with_descriptions() {
    assert_schema_ground_truth(
        "\
enum Status {
  \"Currently active\"
  ACTIVE
  \"No longer active\"
  INACTIVE
  PENDING
}
",
    );
}

/// Union type definition.
///
/// Validates union member parsing against
/// `graphql_parser`.
#[test]
fn test_schema_ground_truth_union() {
    assert_schema_ground_truth(
        "\
union SearchResult = User | Post | Comment
",
    );
}

/// Input object type with described fields, positioned
/// at their descriptions.
#[test]
fn test_schema_ground_truth_input_with_descriptions() {
    assert_schema_ground_truth(
        "\
input CreateUserInput {
  \"The user's name\"
  name: String!
  \"Optional email\"
  email: String
  age: Int = 0
}
",
    );
}

/// Interface type that implements another interface.
///
/// Validates interface parsing including the
/// `implements` clause.
#[test]
fn test_schema_ground_truth_interface() {
    assert_schema_ground_truth(
        "\
interface Node {
  id: ID!
}

interface NamedNode implements Node {
  id: ID!
  name: String
}
",
    );
}

/// Directive definition with arguments, locations, and
/// the `repeatable` keyword.
#[test]
fn test_schema_ground_truth_directive_definition() {
    assert_schema_ground_truth(
        "\
directive @cacheControl(maxAge: Int, scope: CacheControlScope) repeatable on FIELD_DEFINITION | OBJECT | INTERFACE
",
    );
}

/// Schema definition with root operation types.
///
/// Validates `schema { query: ... mutation: ... }`
/// syntax.
#[test]
fn test_schema_ground_truth_schema_definition() {
    assert_schema_ground_truth(
        "\
schema {
  query: Query
  mutation: Mutation
  subscription: Subscription
}
",
    );
}

/// Type extensions for object, enum, union, interface,
/// scalar, and input object.
///
/// Validates all six type-extension forms.
#[test]
fn test_schema_ground_truth_type_extensions() {
    assert_schema_ground_truth(
        "\
extend type User {
  email: String
}

extend enum Status {
  ARCHIVED
}

extend union SearchResult = Comment

extend interface Node {
  createdAt: DateTime
}

extend scalar DateTime @specifiedBy(url: \"https://scalars.graphql.org/andimarek/date-time\")

extend input CreateUserInput {
  role: String
}
",
    );
}

/// Complex multi-definition document containing
/// several type kinds, descriptions, directives, and
/// arguments.
#[test]
fn test_schema_ground_truth_complex_document() {
    assert_schema_ground_truth(
        "\
\"The root query type\"
type Query {
  \"Fetch a user by ID\"
  user(id: ID!): User
  users(first: Int = 10, after: String): [User!]!
}

type User implements Node {
  id: ID!
  name: String!
  email: String
  role: Role!
}

interface Node {
  id: ID!
}

enum Role {
  ADMIN
  USER
  GUEST
}

union SearchResult = User | Post

input CreateUserInput {
  name: String!
  email: String
  role: Role = USER
}

scalar DateTime

directive @deprecated(reason: String = \"No longer supported\") on FIELD_DEFINITION | ENUM_VALUE
",
    );
}

// ─────────────────────────────────────────────
// Query ground-truth tests
// ─────────────────────────────────────────────

/// Simple named query with nested fields.
///
/// Validates basic operation + selection set parsing.
#[test]
fn test_query_ground_truth_simple_query() {
    assert_query_ground_truth(
        "\
query GetUser {
  user {
    id
    name
  }
}
",
    );
}

/// Shorthand query (`{ field }`) — verifies the
/// `SelectionSet` operation variant.
///
/// Per the GraphQL spec, a shorthand query is an
/// anonymous query operation written without the
/// `query` keyword.
/// https://spec.graphql.org/September2025/#sec-Language.Operations
#[test]
fn test_query_ground_truth_shorthand() {
    assert_query_ground_truth(
        "\
{
  viewer {
    name
  }
}
",
    );
}

/// Mutation operation.
#[test]
fn test_query_ground_truth_mutation() {
    assert_query_ground_truth(
        "\
mutation CreateUser {
  createUser(name: \"Alice\") {
    id
    name
  }
}
",
    );
}

/// Subscription operation.
#[test]
fn test_query_ground_truth_subscription() {
    assert_query_ground_truth(
        "\
subscription OnMessageAdded {
  messageAdded {
    id
    content
    author {
      name
    }
  }
}
",
    );
}

/// Query with variable definitions and default values.
///
/// Validates variable syntax including type annotations,
/// nullability, and defaults.
#[test]
fn test_query_ground_truth_variables() {
    assert_query_ground_truth(
        "\
query GetUsers($first: Int = 10, $after: String, $includeEmail: Boolean!) {
  users(first: $first, after: $after) {
    id
    name
  }
}
",
    );
}

/// Fragment definition and fragment spreads.
///
/// Validates fragment definition syntax and the
/// `...FragmentName` spread syntax.
/// https://spec.graphql.org/September2025/#sec-Language.Fragments
#[test]
fn test_query_ground_truth_fragments() {
    assert_query_ground_truth(
        "\
query GetUser {
  user(id: 1) {
    ...UserFields
  }
}

fragment UserFields on User {
  id
  name
  email
}
",
    );
}

/// Inline fragments with type conditions.
///
/// Validates `... on Type { }` syntax.
/// https://spec.graphql.org/September2025/#sec-Inline-Fragments
#[test]
fn test_query_ground_truth_inline_fragments() {
    assert_query_ground_truth(
        "\
query Search {
  search(query: \"test\") {
    ... on User {
      name
      email
    }
    ... on Post {
      title
      body
    }
  }
}
",
    );
}

/// Aliases and arguments with various value types:
/// int, float, string, boolean, null, enum, list,
/// and object.
#[test]
fn test_query_ground_truth_aliases_and_value_types() {
    assert_query_ground_truth(
        "\
query ValueTypes {
  intVal: field(arg: 42)
  floatVal: field(arg: 3.14)
  stringVal: field(arg: \"hello\")
  boolTrue: field(arg: true)
  boolFalse: field(arg: false)
  nullVal: field(arg: null)
  enumVal: field(arg: ACTIVE)
  listVal: field(arg: [1, 2, 3])
  objectVal: field(arg: {key: \"value\", nested: {a: 1}})
}
",
    );
}

/// Nested selection sets (3+ levels deep).
///
/// Validates deeply nested field selections.
#[test]
fn test_query_ground_truth_deep_nesting() {
    assert_query_ground_truth(
        "\
query DeepQuery {
  viewer {
    organization {
      teams {
        members {
          name
        }
      }
    }
  }
}
",
    );
}

/// Fields with varied type annotations: nullable list,
/// non-null list of non-null, and nested list types.
///
/// Validates that `[String]`, `[String!]!`, `[[Int]]`,
/// and `[[Int!]!]!` all produce identical AST structures
/// in both parsers.
#[test]
fn test_schema_ground_truth_type_annotation_variety() {
    assert_schema_ground_truth(
        "\
type TypeAnnotations {
  nullableList: [String]
  nonNullList: [String!]!
  nestedList: [[Int]]
  complexNested: [[Int!]!]!
}
",
    );
}

/// Block string descriptions on types and fields.
///
/// Validates that triple-quoted block strings are parsed
/// and normalised identically by both parsers (whitespace
/// stripping, indentation removal per GraphQL spec
/// §2.9.4).
/// https://spec.graphql.org/September2025/#sec-String-Value
#[test]
fn test_schema_ground_truth_block_string_descriptions() {
    assert_schema_ground_truth(
        r#"
"""
A user in the system.

Represents an authenticated account with profile data.
"""
type User {
  """The unique identifier."""
  id: ID!
  """
  The user's display name.
  May contain unicode characters.
  """
  name: String
}
"#,
    );
}

/// Query with variable values passed as arguments,
/// negative integer, and negative float.
///
/// Validates that `$varName` references in argument
/// positions are correctly represented, and that
/// negative numeric literals round-trip through both
/// parsers identically.
#[test]
fn test_query_ground_truth_variable_refs_and_negative_numbers() {
    assert_query_ground_truth(
        "\
query Fetch($id: ID!, $limit: Int) {
  user(id: $id) {
    posts(limit: $limit, offset: -5) {
      score(threshold: -1.5)
    }
  }
}
",
    );
}

/// Directives on operations, fields, and fragments.
///
/// Validates directive parsing and positioning across
/// different directive locations.
/// https://spec.graphql.org/September2025/#sec-Language.Directives
#[test]
fn test_query_ground_truth_directives() {
    assert_query_ground_truth(
        "\
query GetUser($withEmail: Boolean!) @cacheControl(maxAge: 60) {
  user(id: 1) {
    id
    name
    email @include(if: $withEmail)
    ...UserExtra @skip(if: true)
  }
}

fragment UserExtra on User {
  age
  role
}
",
    );
}
