use crate::graphql_source_span::GraphQLSourceSpan;
use crate::token::GraphQLToken;
use crate::token::GraphQLTriviaToken;
use vstd::prelude::*;

verus! {

/// A whole GraphQL document.
#[derive(Debug, PartialEq)]
pub struct Document {
    pub definitions: Vec<Definition>,
    pub span: GraphQLSourceSpan,
    /// Source details kept when the parser retains syntax.
    pub syntax: Option<Box<DocumentSyntax>>,
}

/// The source details of a document that are not part of any definition.
#[derive(Debug, PartialEq)]
pub struct DocumentSyntax {
    /// The comments and commas after the last definition.
    pub trailing_trivia: Vec<GraphQLTriviaToken>,
}

impl Document {
    /// The trivia after the last definition, when syntax was retained.
    pub fn trailing_trivia(&self) -> (r: Option<&Vec<GraphQLTriviaToken>>)
        ensures
            r == match self.syntax {
                Some(sx) => Some(&sx.trailing_trivia),
                None => None,
            },
    {
        match &self.syntax {
            Some(sx) => Some(&sx.trailing_trivia),
            None => None,
        }
    }
}

/// A top-level definition.
#[derive(Debug, PartialEq)]
pub enum Definition {
    DirectiveDefinition(DirectiveDefinition),
    FragmentDefinition(FragmentDefinition),
    OperationDefinition(OperationDefinition),
    SchemaDefinition(SchemaDefinition),
    SchemaExtension(SchemaExtension),
    TypeDefinition(TypeDefinition),
    TypeExtension(TypeExtension),
}

/// A name (identifier) with its span.
#[derive(Clone, Debug, PartialEq)]
pub struct Name {
    pub value: String,
    pub span: GraphQLSourceSpan,
}

/// A GraphQL input value.
#[derive(Debug, PartialEq)]
pub enum Value {
    Boolean(BooleanValue),
    Enum(EnumValue),
    Float(FloatValue),
    Int(IntValue),
    List(ListValue),
    Null(NullValue),
    Object(ObjectValue),
    String(StringValue),
    Variable(VariableValue),
}

/// A GraphQL integer value (a signed 32-bit integer; literals out of range are clamped by the parser).
#[derive(Clone, Debug, PartialEq)]
pub struct IntValue {
    pub value: i32,
    pub span: GraphQLSourceSpan,
    pub syntax: Option<IntValueSyntax>,
}

impl IntValue {
    /// The value, widened to 64 bits.
    pub fn as_i64(&self) -> (r: i64)
        ensures
            r == self.value,
    {
        self.value as i64
    }
}

/// A GraphQL float value, held as the literal text that denotes it.
#[derive(Clone, Debug, PartialEq)]
pub struct FloatValue {
    pub value: String,
    pub span: GraphQLSourceSpan,
    pub syntax: Option<FloatValueSyntax>,
}

/// A GraphQL string value, after escape processing and block-string indentation stripping.
#[derive(Clone, Debug, PartialEq)]
pub struct StringValue {
    pub is_block: bool,
    pub value: String,
    pub span: GraphQLSourceSpan,
    pub syntax: Option<StringValueSyntax>,
}

/// A GraphQL boolean value.
#[derive(Clone, Debug, PartialEq)]
pub struct BooleanValue {
    pub value: bool,
    pub span: GraphQLSourceSpan,
    pub syntax: Option<BooleanValueSyntax>,
}

/// A GraphQL null literal.
#[derive(Clone, Debug, PartialEq)]
pub struct NullValue {
    pub span: GraphQLSourceSpan,
    pub syntax: Option<NullValueSyntax>,
}

/// A GraphQL enum value (an unquoted name other than `true`, `false`, `null`).
#[derive(Clone, Debug, PartialEq)]
pub struct EnumValue {
    pub value: String,
    pub span: GraphQLSourceSpan,
    pub syntax: Option<EnumValueSyntax>,
}

/// A variable reference in a value position (e.g. `$id`).
#[derive(Clone, Debug, PartialEq)]
pub struct VariableValue {
    pub name: Name,
    pub span: GraphQLSourceSpan,
    pub syntax: Option<VariableValueSyntax>,
}

/// A GraphQL list value.
#[derive(Debug, PartialEq)]
pub struct ListValue {
    pub values: Vec<Value>,
    pub span: GraphQLSourceSpan,
    pub syntax: Option<ListValueSyntax>,
}

/// A GraphQL input object value.
#[derive(Debug, PartialEq)]
pub struct ObjectValue {
    pub fields: Vec<ObjectField>,
    pub span: GraphQLSourceSpan,
    pub syntax: Option<ObjectValueSyntax>,
}

/// A single field of an input object value.
#[derive(Debug, PartialEq)]
pub struct ObjectField {
    pub name: Name,
    pub value: Value,
    pub span: GraphQLSourceSpan,
    pub syntax: Option<ObjectFieldSyntax>,
}

/// Syntax detail for a [`IntValue`].
#[derive(Clone, Debug, PartialEq)]
pub struct IntValueSyntax {
    pub token: GraphQLToken,
}

/// Syntax detail for a [`FloatValue`].
#[derive(Clone, Debug, PartialEq)]
pub struct FloatValueSyntax {
    pub token: GraphQLToken,
}

/// Syntax detail for a [`StringValue`].
#[derive(Clone, Debug, PartialEq)]
pub struct StringValueSyntax {
    pub token: GraphQLToken,
}

/// Syntax detail for a [`BooleanValue`].
#[derive(Clone, Debug, PartialEq)]
pub struct BooleanValueSyntax {
    pub token: GraphQLToken,
}

/// Syntax detail for a [`NullValue`].
#[derive(Clone, Debug, PartialEq)]
pub struct NullValueSyntax {
    pub token: GraphQLToken,
}

/// Syntax detail for a [`EnumValue`].
#[derive(Clone, Debug, PartialEq)]
pub struct EnumValueSyntax {
    pub token: GraphQLToken,
}

/// Syntax detail for a [`VariableValue`].
#[derive(Clone, Debug, PartialEq)]
pub struct VariableValueSyntax {
    pub dollar: GraphQLToken,
}

/// An opening and a closing delimiter token.
#[derive(Clone, Debug, PartialEq)]
pub struct DelimiterPair {
    pub open: GraphQLToken,
    pub close: GraphQLToken,
}

/// Syntax detail for a [`ListValue`].
#[derive(Clone, Debug, PartialEq)]
pub struct ListValueSyntax {
    pub brackets: DelimiterPair,
}

/// Syntax detail for an [`ObjectValue`].
#[derive(Clone, Debug, PartialEq)]
pub struct ObjectValueSyntax {
    pub braces: DelimiterPair,
}

/// Syntax detail for an [`ObjectField`].
#[derive(Clone, Debug, PartialEq)]
pub struct ObjectFieldSyntax {
    pub colon: GraphQLToken,
}

/// Whether a type annotation is non-null.
#[derive(Clone, Debug, PartialEq)]
pub enum Nullability {
    Nullable,
    NonNull { syntax: Option<GraphQLToken> },
}

/// A type annotation (`Name`, `[T]`, optionally followed by `!`).
#[derive(Debug, PartialEq)]
pub enum TypeAnnotation {
    Named(NamedTypeAnnotation),
    List(ListTypeAnnotation),
}

/// A named type annotation.
#[derive(Debug, PartialEq)]
pub struct NamedTypeAnnotation {
    pub name: Name,
    pub nullability: Nullability,
    pub span: GraphQLSourceSpan,
}

/// A list type annotation.
#[derive(Debug, PartialEq)]
pub struct ListTypeAnnotation {
    pub element_type: Box<TypeAnnotation>,
    pub nullability: Nullability,
    pub span: GraphQLSourceSpan,
}

/// A directive applied to a construct (e.g. `@skip(if: true)`).
#[derive(Debug, PartialEq)]
pub struct DirectiveAnnotation {
    pub name: Name,
    pub arguments: Vec<Argument>,
    pub span: GraphQLSourceSpan,
}

/// An argument (`name: value`).
#[derive(Debug, PartialEq)]
pub struct Argument {
    pub name: Name,
    pub value: Value,
    pub span: GraphQLSourceSpan,
}

/// An argument or input field definition.
#[derive(Debug, PartialEq)]
pub struct InputValueDefinition {
    pub default_value: Option<Value>,
    pub description: Option<StringValue>,
    pub directives: Vec<DirectiveAnnotation>,
    pub name: Name,
    /// Starts at the description, if there is one.
    pub span: GraphQLSourceSpan,
    pub value_type: TypeAnnotation,
}

/// A field definition of an object or interface type.
#[derive(Debug, PartialEq)]
pub struct FieldDefinition {
    pub arguments: Vec<InputValueDefinition>,
    pub description: Option<StringValue>,
    pub directives: Vec<DirectiveAnnotation>,
    pub field_type: TypeAnnotation,
    pub name: Name,
    /// Starts at the description, if there is one.
    pub span: GraphQLSourceSpan,
}

/// A value definition of an enum type.
#[derive(Debug, PartialEq)]
pub struct EnumValueDefinition {
    pub description: Option<StringValue>,
    pub directives: Vec<DirectiveAnnotation>,
    pub name: Name,
    /// Starts at the description, if there is one.
    pub span: GraphQLSourceSpan,
}

/// A location where a directive may be applied.
#[derive(Clone, Copy, Debug, PartialEq, Eq)]
pub enum DirectiveLocationKind {
    ArgumentDefinition,
    Enum,
    EnumValue,
    Field,
    FieldDefinition,
    FragmentDefinition,
    FragmentSpread,
    InlineFragment,
    InputFieldDefinition,
    InputObject,
    Interface,
    Mutation,
    Object,
    Query,
    Scalar,
    Schema,
    Subscription,
    Union,
    VariableDefinition,
}

/// A directive location in a directive definition.
#[derive(Clone, Debug, PartialEq)]
pub struct DirectiveLocation {
    pub kind: DirectiveLocationKind,
    pub span: GraphQLSourceSpan,
}

/// The kind of an operation.
#[derive(Clone, Copy, Debug, PartialEq, Eq)]
pub enum OperationKind {
    Query,
    Mutation,
    Subscription,
}

/// A `schema { ... }` definition.
#[derive(Debug, PartialEq)]
pub struct SchemaDefinition {
    pub description: Option<StringValue>,
    pub directives: Vec<DirectiveAnnotation>,
    pub root_operations: Vec<RootOperationTypeDefinition>,
    pub span: GraphQLSourceSpan,
}

/// A root operation type of a schema (`query: Query`).
#[derive(Debug, PartialEq)]
pub struct RootOperationTypeDefinition {
    pub named_type: Name,
    pub operation_kind: OperationKind,
    pub span: GraphQLSourceSpan,
}

/// An `extend schema ...` extension.
#[derive(Debug, PartialEq)]
pub struct SchemaExtension {
    pub directives: Vec<DirectiveAnnotation>,
    pub root_operations: Vec<RootOperationTypeDefinition>,
    pub span: GraphQLSourceSpan,
}

/// A type definition.
#[derive(Debug, PartialEq)]
pub enum TypeDefinition {
    Enum(EnumTypeDefinition),
    InputObject(InputObjectTypeDefinition),
    Interface(InterfaceTypeDefinition),
    Object(ObjectTypeDefinition),
    Scalar(ScalarTypeDefinition),
    Union(UnionTypeDefinition),
}

/// A `scalar` type definition.
#[derive(Debug, PartialEq)]
pub struct ScalarTypeDefinition {
    pub description: Option<StringValue>,
    pub directives: Vec<DirectiveAnnotation>,
    pub name: Name,
    pub span: GraphQLSourceSpan,
}

/// A `type` (object type) definition.
#[derive(Debug, PartialEq)]
pub struct ObjectTypeDefinition {
    pub description: Option<StringValue>,
    pub directives: Vec<DirectiveAnnotation>,
    pub fields: Vec<FieldDefinition>,
    pub implements: Vec<Name>,
    pub name: Name,
    pub span: GraphQLSourceSpan,
}

/// An `interface` type definition.
#[derive(Debug, PartialEq)]
pub struct InterfaceTypeDefinition {
    pub description: Option<StringValue>,
    pub directives: Vec<DirectiveAnnotation>,
    pub fields: Vec<FieldDefinition>,
    pub implements: Vec<Name>,
    pub name: Name,
    pub span: GraphQLSourceSpan,
}

/// A `union` type definition.
#[derive(Debug, PartialEq)]
pub struct UnionTypeDefinition {
    pub description: Option<StringValue>,
    pub directives: Vec<DirectiveAnnotation>,
    pub members: Vec<Name>,
    pub name: Name,
    pub span: GraphQLSourceSpan,
}

/// An `enum` type definition.
#[derive(Debug, PartialEq)]
pub struct EnumTypeDefinition {
    pub description: Option<StringValue>,
    pub directives: Vec<DirectiveAnnotation>,
    pub name: Name,
    pub span: GraphQLSourceSpan,
    pub values: Vec<EnumValueDefinition>,
}

/// An `input` type definition.
#[derive(Debug, PartialEq)]
pub struct InputObjectTypeDefinition {
    pub description: Option<StringValue>,
    pub directives: Vec<DirectiveAnnotation>,
    pub fields: Vec<InputValueDefinition>,
    pub name: Name,
    pub span: GraphQLSourceSpan,
}

/// A type extension.
#[derive(Debug, PartialEq)]
pub enum TypeExtension {
    Enum(EnumTypeExtension),
    InputObject(InputObjectTypeExtension),
    Interface(InterfaceTypeExtension),
    Object(ObjectTypeExtension),
    Scalar(ScalarTypeExtension),
    Union(UnionTypeExtension),
}

/// An `extend scalar` extension.
#[derive(Debug, PartialEq)]
pub struct ScalarTypeExtension {
    pub directives: Vec<DirectiveAnnotation>,
    pub name: Name,
    /// Starts at the type keyword after `extend`.
    pub span: GraphQLSourceSpan,
}

/// An `extend type` extension.
#[derive(Debug, PartialEq)]
pub struct ObjectTypeExtension {
    pub directives: Vec<DirectiveAnnotation>,
    pub fields: Vec<FieldDefinition>,
    pub implements: Vec<Name>,
    pub name: Name,
    /// Starts at the type keyword after `extend`.
    pub span: GraphQLSourceSpan,
}

/// An `extend interface` extension.
#[derive(Debug, PartialEq)]
pub struct InterfaceTypeExtension {
    pub directives: Vec<DirectiveAnnotation>,
    pub fields: Vec<FieldDefinition>,
    pub implements: Vec<Name>,
    pub name: Name,
    /// Starts at the type keyword after `extend`.
    pub span: GraphQLSourceSpan,
}

/// An `extend union` extension.
#[derive(Debug, PartialEq)]
pub struct UnionTypeExtension {
    pub directives: Vec<DirectiveAnnotation>,
    pub members: Vec<Name>,
    pub name: Name,
    /// Starts at the type keyword after `extend`.
    pub span: GraphQLSourceSpan,
}

/// An `extend enum` extension.
#[derive(Debug, PartialEq)]
pub struct EnumTypeExtension {
    pub directives: Vec<DirectiveAnnotation>,
    pub name: Name,
    /// Starts at the type keyword after `extend`.
    pub span: GraphQLSourceSpan,
    pub values: Vec<EnumValueDefinition>,
}

/// An `extend input` extension.
#[derive(Debug, PartialEq)]
pub struct InputObjectTypeExtension {
    pub directives: Vec<DirectiveAnnotation>,
    pub fields: Vec<InputValueDefinition>,
    pub name: Name,
    /// Starts at the type keyword after `extend`.
    pub span: GraphQLSourceSpan,
}

/// A `directive @name on ...` definition.
#[derive(Debug, PartialEq)]
pub struct DirectiveDefinition {
    pub arguments: Vec<InputValueDefinition>,
    pub description: Option<StringValue>,
    pub locations: Vec<DirectiveLocation>,
    pub name: Name,
    pub repeatable: bool,
    pub span: GraphQLSourceSpan,
}

/// An operation (query, mutation, subscription, or shorthand `{ ... }`).
#[derive(Debug, PartialEq)]
pub struct OperationDefinition {
    pub description: Option<StringValue>,
    pub directives: Vec<DirectiveAnnotation>,
    pub name: Option<Name>,
    pub operation_kind: OperationKind,
    pub selection_set: SelectionSet,
    /// Whether the operation was written as a bare selection set, with no
    /// operation keyword.
    pub shorthand: bool,
    pub span: GraphQLSourceSpan,
    pub variable_definitions: Vec<VariableDefinition>,
}

/// A variable definition of an operation (`$id: ID! = 1`).
#[derive(Debug, PartialEq)]
pub struct VariableDefinition {
    pub default_value: Option<Value>,
    pub description: Option<StringValue>,
    pub directives: Vec<DirectiveAnnotation>,
    pub span: GraphQLSourceSpan,
    pub syntax: Option<VariableDefinitionSyntax>,
    pub var_type: TypeAnnotation,
    pub variable: Name,
}

/// Syntax detail for a [`VariableDefinition`].
#[derive(Clone, Debug, PartialEq)]
pub struct VariableDefinitionSyntax {
    pub colon: GraphQLToken,
    pub dollar: GraphQLToken,
    pub equals: Option<GraphQLToken>,
}

/// A variable reference (`$name`).
#[derive(Clone, Debug, PartialEq)]
pub struct VariableReference {
    pub name: Name,
    pub span: GraphQLSourceSpan,
    pub syntax: Option<VariableReferenceSyntax>,
}

/// Syntax detail for a [`VariableReference`].
#[derive(Clone, Debug, PartialEq)]
pub struct VariableReferenceSyntax {
    pub dollar: GraphQLToken,
}

impl VariableReference {
    /// The name of the referenced variable.
    pub fn name_value(&self) -> (r: &str)
        ensures
            r@ == self.name.value@,
    {
        self.name.value.as_str()
    }
}

/// A selection set (`{ ... }`).
#[derive(Debug, PartialEq)]
pub struct SelectionSet {
    pub selections: Vec<Selection>,
    /// From the opening brace to the start of the closing brace.
    pub span: GraphQLSourceSpan,
}

/// A selection in a selection set.
#[derive(Debug, PartialEq)]
pub enum Selection {
    Field(Field),
    FragmentSpread(FragmentSpread),
    InlineFragment(InlineFragment),
}

/// A field selection.
#[derive(Debug, PartialEq)]
pub struct Field {
    pub alias: Option<Name>,
    pub arguments: Vec<Argument>,
    pub directives: Vec<DirectiveAnnotation>,
    pub name: Name,
    pub selection_set: Option<SelectionSet>,
    pub span: GraphQLSourceSpan,
}

/// A fragment spread (`...Name`).
#[derive(Debug, PartialEq)]
pub struct FragmentSpread {
    pub directives: Vec<DirectiveAnnotation>,
    pub name: Name,
    /// Starts at the name, after the `...`.
    pub span: GraphQLSourceSpan,
}

/// An inline fragment (`... on Type { ... }`).
#[derive(Debug, PartialEq)]
pub struct InlineFragment {
    pub directives: Vec<DirectiveAnnotation>,
    pub selection_set: SelectionSet,
    /// Starts at the token after the `...`.
    pub span: GraphQLSourceSpan,
    pub type_condition: Option<TypeCondition>,
}

/// A type condition (`on Type`).
#[derive(Clone, Debug, PartialEq)]
pub struct TypeCondition {
    pub named_type: Name,
    pub span: GraphQLSourceSpan,
}

/// A `fragment Name on Type { ... }` definition.
#[derive(Debug, PartialEq)]
pub struct FragmentDefinition {
    pub description: Option<StringValue>,
    pub directives: Vec<DirectiveAnnotation>,
    pub name: Name,
    pub selection_set: SelectionSet,
    pub span: GraphQLSourceSpan,
    pub type_condition: TypeCondition,
}

} // verus!
