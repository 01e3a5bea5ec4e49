//! The data of `graphql_parser` v0.4 documents (instantiated with `String`
//! text), as plain values that the conversions of this crate produce and
//! read.

use crate::source_position::AstPos;
use vstd::prelude::*;

verus! {

/// A 1-based line/column position.
pub type Pos = AstPos;

/// A `graphql_parser` input value. Float values are held as the literal text that denotes them; object values hold their entries in strictly increasing key order (the order of a `BTreeMap`).
#[derive(Debug, PartialEq)]
pub enum Value {
    Variable(String),
    Int(i64),
    Float(String),
    String(String),
    Boolean(bool),
    Null,
    Enum(String),
    List(Vec<Value>),
    Object(Vec<(String, Value)>),
}

/// A `graphql_parser` type annotation.
#[derive(Debug, PartialEq)]
pub enum Type {
    NamedType(String),
    ListType(Box<Type>),
    NonNullType(Box<Type>),
}

/// A `graphql_parser` directive.
#[derive(Debug, PartialEq)]
pub struct Directive {
    pub position: Pos,
    pub name: String,
    pub arguments: Vec<(String, Value)>,
}

/// A `graphql_parser` schema document.
#[derive(Debug, PartialEq)]
pub struct SchemaDocument {
    pub definitions: Vec<SchemaDefinitionItem>,
}

/// A `graphql_parser` schema definition.
#[derive(Debug, PartialEq)]
pub enum SchemaDefinitionItem {
    SchemaDefinition(SchemaDefinition),
    TypeDefinition(TypeDefinition),
    TypeExtension(TypeExtension),
    DirectiveDefinition(DirectiveDefinition),
}

/// A `graphql_parser` schema definition (`schema { ... }`).
#[derive(Debug, PartialEq)]
pub struct SchemaDefinition {
    pub position: Pos,
    pub directives: Vec<Directive>,
    pub query: Option<String>,
    pub mutation: Option<String>,
    pub subscription: Option<String>,
}

/// A `graphql_parser` type definition.
#[derive(Debug, PartialEq)]
pub enum TypeDefinition {
    Scalar(ScalarType),
    Object(ObjectType),
    Interface(InterfaceType),
    Union(UnionType),
    Enum(EnumType),
    InputObject(InputObjectType),
}

/// A `graphql_parser` type extension.
#[derive(Debug, PartialEq)]
pub enum TypeExtension {
    Scalar(ScalarTypeExtension),
    Object(ObjectTypeExtension),
    Interface(InterfaceTypeExtension),
    Union(UnionTypeExtension),
    Enum(EnumTypeExtension),
    InputObject(InputObjectTypeExtension),
}

/// A `graphql_parser` scalar type.
#[derive(Debug, PartialEq)]
pub struct ScalarType {
    pub position: Pos,
    pub description: Option<String>,
    pub name: String,
    pub directives: Vec<Directive>,
}

/// A `graphql_parser` scalar type extension.
#[derive(Debug, PartialEq)]
pub struct ScalarTypeExtension {
    pub position: Pos,
    pub name: String,
    pub directives: Vec<Directive>,
}

/// A `graphql_parser` object type.
#[derive(Debug, PartialEq)]
pub struct ObjectType {
    pub position: Pos,
    pub description: Option<String>,
    pub name: String,
    pub implements_interfaces: Vec<String>,
    pub directives: Vec<Directive>,
    pub fields: Vec<Field>,
}

/// A `graphql_parser` object type extension.
#[derive(Debug, PartialEq)]
pub struct ObjectTypeExtension {
    pub position: Pos,
    pub name: String,
    pub implements_interfaces: Vec<String>,
    pub directives: Vec<Directive>,
    pub fields: Vec<Field>,
}

/// A `graphql_parser` field definition.
#[derive(Debug, PartialEq)]
pub struct Field {
    pub position: Pos,
    pub description: Option<String>,
    pub name: String,
    pub arguments: Vec<InputValue>,
    pub field_type: Type,
    pub directives: Vec<Directive>,
}

/// A `graphql_parser` input value (argument or input field) definition.
#[derive(Debug, PartialEq)]
pub struct InputValue {
    pub position: Pos,
    pub description: Option<String>,
    pub name: String,
    pub value_type: Type,
    pub default_value: Option<Value>,
    pub directives: Vec<Directive>,
}

/// A `graphql_parser` interface type.
#[derive(Debug, PartialEq)]
pub struct InterfaceType {
    pub position: Pos,
    pub description: Option<String>,
    pub name: String,
    pub implements_interfaces: Vec<String>,
    pub directives: Vec<Directive>,
    pub fields: Vec<Field>,
}

/// A `graphql_parser` interface type extension.
#[derive(Debug, PartialEq)]
pub struct InterfaceTypeExtension {
    pub position: Pos,
    pub name: String,
    pub implements_interfaces: Vec<String>,
    pub directives: Vec<Directive>,
    pub fields: Vec<Field>,
}

/// A `graphql_parser` union type.
#[derive(Debug, PartialEq)]
pub struct UnionType {
    pub position: Pos,
    pub description: Option<String>,
    pub name: String,
    pub directives: Vec<Directive>,
    pub types: Vec<String>,
}

/// A `graphql_parser` union type extension.
#[derive(Debug, PartialEq)]
pub struct UnionTypeExtension {
    pub position: Pos,
    pub name: String,
    pub directives: Vec<Directive>,
    pub types: Vec<String>,
}

/// A `graphql_parser` enum type.
#[derive(Debug, PartialEq)]
pub struct EnumType {
    pub position: Pos,
    pub description: Option<String>,
    pub name: String,
    pub directives: Vec<Directive>,
    pub values: Vec<EnumValue>,
}

/// A `graphql_parser` enum value definition.
#[derive(Debug, PartialEq)]
pub struct EnumValue {
    pub position: Pos,
    pub description: Option<String>,
    pub name: String,
    pub directives: Vec<Directive>,
}

/// A `graphql_parser` enum type extension.
#[derive(Debug, PartialEq)]
pub struct EnumTypeExtension {
    pub position: Pos,
    pub name: String,
    pub directives: Vec<Directive>,
    pub values: Vec<EnumValue>,
}

/// A `graphql_parser` input object type.
#[derive(Debug, PartialEq)]
pub struct InputObjectType {
    pub position: Pos,
    pub description: Option<String>,
    pub name: String,
    pub directives: Vec<Directive>,
    pub fields: Vec<InputValue>,
}

/// A `graphql_parser` input object type extension.
#[derive(Debug, PartialEq)]
pub struct InputObjectTypeExtension {
    pub position: Pos,
    pub name: String,
    pub directives: Vec<Directive>,
    pub fields: Vec<InputValue>,
}

/// A `graphql_parser` directive location.
#[derive(Debug, Clone, Copy, PartialEq, Eq)]
pub enum DirectiveLocation {
    Query,
    Mutation,
    Subscription,
    Field,
    FragmentDefinition,
    FragmentSpread,
    InlineFragment,
    Schema,
    Scalar,
    Object,
    FieldDefinition,
    ArgumentDefinition,
    Interface,
    Union,
    Enum,
    EnumValue,
    InputObject,
    InputFieldDefinition,
    VariableDefinition,
}

/// The name `graphql_parser` gives each directive location (the text its
/// `DirectiveLocation::as_str` returns: `Union` is `UNION`, and so on).
pub open spec fn gp_location_name(l: DirectiveLocation) -> Seq<char> {
    match l {
        DirectiveLocation::Query => "QUERY"@,
        DirectiveLocation::Mutation => "MUTATION"@,
        DirectiveLocation::Subscription => "SUBSCRIPTION"@,
        DirectiveLocation::Field => "FIELD"@,
        DirectiveLocation::FragmentDefinition => "FRAGMENT_DEFINITION"@,
        DirectiveLocation::FragmentSpread => "FRAGMENT_SPREAD"@,
        DirectiveLocation::InlineFragment => "INLINE_FRAGMENT"@,
        DirectiveLocation::Schema => "SCHEMA"@,
        DirectiveLocation::Scalar => "SCALAR"@,
        DirectiveLocation::Object => "OBJECT"@,
        DirectiveLocation::FieldDefinition => "FIELD_DEFINITION"@,
        DirectiveLocation::ArgumentDefinition => "ARGUMENT_DEFINITION"@,
        DirectiveLocation::Interface => "INTERFACE"@,
        DirectiveLocation::Union => "UNION"@,
        DirectiveLocation::Enum => "ENUM"@,
        DirectiveLocation::EnumValue => "ENUM_VALUE"@,
        DirectiveLocation::InputObject => "INPUT_OBJECT"@,
        DirectiveLocation::InputFieldDefinition => "INPUT_FIELD_DEFINITION"@,
        DirectiveLocation::VariableDefinition => "VARIABLE_DEFINITION"@,
    }
}

/// A `graphql_parser` directive definition.
#[derive(Debug, PartialEq)]
pub struct DirectiveDefinition {
    pub position: Pos,
    pub description: Option<String>,
    pub name: String,
    pub arguments: Vec<InputValue>,
    pub repeatable: bool,
    pub locations: Vec<DirectiveLocation>,
}

/// A `graphql_parser` executable (query) document.
#[derive(Debug, PartialEq)]
pub struct QueryDocument {
    pub definitions: Vec<QueryDefinition>,
}

/// A `graphql_parser` executable definition.
#[derive(Debug, PartialEq)]
pub enum QueryDefinition {
    Operation(OperationDefinition),
    Fragment(FragmentDefinition),
}

/// A `graphql_parser` fragment definition.
#[derive(Debug, PartialEq)]
pub struct FragmentDefinition {
    pub position: Pos,
    pub name: String,
    pub type_condition: TypeCondition,
    pub directives: Vec<Directive>,
    pub selection_set: SelectionSet,
}

/// A `graphql_parser` operation.
#[derive(Debug, PartialEq)]
pub enum OperationDefinition {
    SelectionSet(SelectionSet),
    Query(Query),
    Mutation(Mutation),
    Subscription(Subscription),
}

/// A `graphql_parser` query operation.
#[derive(Debug, PartialEq)]
pub struct Query {
    pub position: Pos,
    pub name: Option<String>,
    pub variable_definitions: Vec<VariableDefinition>,
    pub directives: Vec<Directive>,
    pub selection_set: SelectionSet,
}

/// A `graphql_parser` mutation operation.
#[derive(Debug, PartialEq)]
pub struct Mutation {
    pub position: Pos,
    pub name: Option<String>,
    pub variable_definitions: Vec<VariableDefinition>,
    pub directives: Vec<Directive>,
    pub selection_set: SelectionSet,
}

/// A `graphql_parser` subscription operation.
#[derive(Debug, PartialEq)]
pub struct Subscription {
    pub position: Pos,
    pub name: Option<String>,
    pub variable_definitions: Vec<VariableDefinition>,
    pub directives: Vec<Directive>,
    pub selection_set: SelectionSet,
}

/// A `graphql_parser` selection set, with its start and end positions.
#[derive(Debug, PartialEq)]
pub struct SelectionSet {
    pub span: (Pos, Pos),
    pub items: Vec<Selection>,
}

/// A `graphql_parser` variable definition.
#[derive(Debug, PartialEq)]
pub struct VariableDefinition {
    pub position: Pos,
    pub name: String,
    pub var_type: Type,
    pub default_value: Option<Value>,
}

/// A `graphql_parser` selection.
#[derive(Debug, PartialEq)]
pub enum Selection {
    Field(QueryField),
    FragmentSpread(FragmentSpread),
    InlineFragment(InlineFragment),
}

/// A `graphql_parser` field selection.
#[derive(Debug, PartialEq)]
pub struct QueryField {
    pub position: Pos,
    pub alias: Option<String>,
    pub name: String,
    pub arguments: Vec<(String, Value)>,
    pub directives: Vec<Directive>,
    pub selection_set: SelectionSet,
}

/// A `graphql_parser` fragment spread.
#[derive(Debug, PartialEq)]
pub struct FragmentSpread {
    pub position: Pos,
    pub fragment_name: String,
    pub directives: Vec<Directive>,
}

/// A `graphql_parser` type condition.
#[derive(Debug, PartialEq)]
pub enum TypeCondition {
    On(String),
}

/// A `graphql_parser` inline fragment.
#[derive(Debug, PartialEq)]
pub struct InlineFragment {
    pub position: Pos,
    pub type_condition: Option<TypeCondition>,
    pub directives: Vec<Directive>,
    pub selection_set: SelectionSet,
}

} // verus!
