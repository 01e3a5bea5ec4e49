//! Parsing of schema and type extensions (`extend ...`).

use crate::ast;
use crate::graphql_parser::advanced;
use crate::graphql_parser::is_keyword;
use crate::graphql_parser::name_of;
use crate::graphql_parser::progressed;
use crate::graphql_parser::type_system::enum_value_defs_are_const;
use crate::graphql_parser::type_system::field_defs_are_const;
use crate::graphql_parser::type_system::input_value_defs_are_const;
use crate::graphql_parser::types::directives_are_const;
use crate::graphql_parser::DelimiterContext;
use crate::graphql_parser::consumed;
use crate::graphql_parser::spanned;
use crate::graphql_parser::type_system::type_def_written;
use crate::graphql_parser::type_system::root_ops_written;
use crate::graphql_parser::type_system::lemma_type_def_assembled;
use crate::graphql_parser::type_system::lemma_root_ops_step;
use crate::graphql_parser::types::directives_len;
use crate::graphql_parser::types::directives_written;
use crate::graphql_parser::types::lemma_directives_written_len;
use crate::graphql_parser::values::tokens_span;
use crate::graphql_parser::GraphQLParser;
use crate::graphql_source_span::GraphQLSourceSpan;
use crate::token::GraphQLToken;
use crate::token::GraphQLTokenKind;
use vstd::prelude::*;

verus! {

/// Whether the type extension `t` holds only constant values.
pub open spec fn type_ext_is_const(t: ast::TypeExtension) -> bool {
    match t {
        ast::TypeExtension::Enum(e) => directives_are_const(e.directives@) && enum_value_defs_are_const(
            e.values@,
        ),
        ast::TypeExtension::InputObject(i) => directives_are_const(i.directives@)
            && input_value_defs_are_const(i.fields@),
        ast::TypeExtension::Interface(i) => directives_are_const(i.directives@) && field_defs_are_const(
            i.fields@,
        ),
        ast::TypeExtension::Object(o) => directives_are_const(o.directives@) && field_defs_are_const(
            o.fields@,
        ),
        ast::TypeExtension::Scalar(s) => directives_are_const(s.directives@),
        ast::TypeExtension::Union(u) => directives_are_const(u.directives@),
    }
}

/// The span of a type extension.
pub open spec fn type_ext_span(t: ast::TypeExtension) -> GraphQLSourceSpan {
    match t {
        ast::TypeExtension::Enum(x) => x.span,
        ast::TypeExtension::InputObject(x) => x.span,
        ast::TypeExtension::Interface(x) => x.span,
        ast::TypeExtension::Object(x) => x.span,
        ast::TypeExtension::Scalar(x) => x.span,
        ast::TypeExtension::Union(x) => x.span,
    }
}

/// The name of a type extension.
pub open spec fn type_ext_name(t: ast::TypeExtension) -> ast::Name {
    match t {
        ast::TypeExtension::Enum(x) => x.name,
        ast::TypeExtension::InputObject(x) => x.name,
        ast::TypeExtension::Interface(x) => x.name,
        ast::TypeExtension::Object(x) => x.name,
        ast::TypeExtension::Scalar(x) => x.name,
        ast::TypeExtension::Union(x) => x.name,
    }
}

/// `t` was parsed from the tokens `ts`, which start with its type keyword
/// and name; its span starts at the type keyword.
pub open spec fn type_ext_parsed(t: ast::TypeExtension, ts: Seq<GraphQLToken>) -> bool {
    &&& ts.len() > 1
    &&& name_of(type_ext_name(t), ts[1])
    &&& type_ext_span(t).start_inclusive == ts[0].span.start_inclusive
    &&& type_ext_is_const(t)
}

/// Whether the extension definition `d` holds only constant values.
pub open spec fn extension_is_const(d: ast::Definition) -> bool {
    match d {
        ast::Definition::SchemaExtension(s) => directives_are_const(s.directives@),
        ast::Definition::TypeExtension(t) => type_ext_is_const(t),
        _ => false,
    }
}

/// The type definition that a type extension extends with: the same
/// parts, without a description.
pub open spec fn ext_as_def(t: ast::TypeExtension) -> ast::TypeDefinition {
    match t {
        ast::TypeExtension::Scalar(x) => ast::TypeDefinition::Scalar(
            ast::ScalarTypeDefinition { description: None, directives: x.directives, name: x.name, span: x.span },
        ),
        ast::TypeExtension::Object(x) => ast::TypeDefinition::Object(
            ast::ObjectTypeDefinition {
                description: None,
                directives: x.directives,
                fields: x.fields,
                implements: x.implements,
                name: x.name,
                span: x.span,
            },
        ),
        ast::TypeExtension::Interface(x) => ast::TypeDefinition::Interface(
            ast::InterfaceTypeDefinition {
                description: None,
                directives: x.directives,
                fields: x.fields,
                implements: x.implements,
                name: x.name,
                span: x.span,
            },
        ),
        ast::TypeExtension::Union(x) => ast::TypeDefinition::Union(
            ast::UnionTypeDefinition {
                description: None,
                directives: x.directives,
                members: x.members,
                name: x.name,
                span: x.span,
            },
        ),
        ast::TypeExtension::Enum(x) => ast::TypeDefinition::Enum(
            ast::EnumTypeDefinition {
                description: None,
                directives: x.directives,
                name: x.name,
                span: x.span,
                values: x.values,
            },
        ),
        ast::TypeExtension::InputObject(x) => ast::TypeDefinition::InputObject(
            ast::InputObjectTypeDefinition {
                description: None,
                directives: x.directives,
                fields: x.fields,
                name: x.name,
                span: x.span,
            },
        ),
    }
}

/// The schema extension `x` is written with exactly the tokens `ts`:
/// `extend`, `schema`, its directives and, when written, `{`, its root
/// operation types and `}`. Its span covers those tokens.
pub open spec fn schema_ext_written(x: ast::SchemaExtension, ts: Seq<GraphQLToken>, retain: bool) -> bool {
    let d: int = 2 + directives_len(x.directives@) as int;
    &&& d <= ts.len()
    &&& is_keyword(ts[0], "extend"@)
    &&& is_keyword(ts[1], "schema"@)
    &&& directives_written(x.directives@, ts.subrange(2, d), retain)
    &&& (d == ts.len() ==> x.root_operations@.len() == 0)
    &&& (d < ts.len() ==> d + 2 <= ts.len() && ts[d].kind is CurlyBraceOpen && ts.last().kind is CurlyBraceClose
        && root_ops_written(x.root_operations@, ts.subrange(d + 1, ts.len() - 1)))
    &&& x.span == tokens_span(ts[0], ts.last())
}

/// The extension `d` is written with exactly the tokens `ts`: a schema
/// extension, or `extend` and a type extension written as the type
/// definition it extends with.
pub open spec fn extension_written(d: ast::Definition, ts: Seq<GraphQLToken>, retain: bool) -> bool {
    match d {
        ast::Definition::SchemaExtension(x) => schema_ext_written(x, ts, retain),
        ast::Definition::TypeExtension(t) => ts.len() > 0 && is_keyword(ts[0], "extend"@) && type_def_written(
            ext_as_def(t),
            ts.subrange(1, ts.len() as int),
            retain,
        ),
        _ => false,
    }
}

/// Assembles what parsing a schema extension established, after its
/// `extend` token.
#[verifier::spinoff_prover]
#[verifier::rlimit(100)]
proof fn lemma_schema_ext_written<'src>(
    x: ast::SchemaExtension,
    extend: GraphQLToken,
    s0: GraphQLParser<'src>,
    s1: GraphQLParser<'src>,
    s2: GraphQLParser<'src>,
    s3: GraphQLParser<'src>,
    s4: GraphQLParser<'src>,
    s5: GraphQLParser<'src>,
)
    requires
        s0.inv(),
        advanced(s0, s1),
        advanced(s1, s2),
        advanced(s2, s3),
        advanced(s3, s4),
        advanced(s4, s5),
        is_keyword(extend, "extend"@),
        s0.rest().len() > 0,
        is_keyword(s0.rest()[0], "schema"@),
        s1.pos() == s0.pos() + 1,
        directives_written(x.directives@, consumed(s1, s2), s0.spec_config().retain_syntax),
        s5.pos() == s2.pos() ==> x.root_operations@.len() == 0,
        s5.pos() > s2.pos() ==> s3.pos() == s2.pos() + 1 && s2.rest().len() > 0 && s2.rest()[0].kind is CurlyBraceOpen
            && root_ops_written(x.root_operations@, consumed(s3, s4)) && s5.pos() == s4.pos() + 1 && s4.rest().len()
            > 0 && s4.rest()[0].kind is CurlyBraceClose,
        x.span == spanned(extend.span.start_inclusive, s5.last_end()),
        s5.pos() > s0.pos(),
    ensures
        schema_ext_written(x, seq![extend] + consumed(s0, s5), s0.spec_config().retain_syntax),
{
    let retain = s0.spec_config().retain_syntax;
    GraphQLParser::lemma_consumed(s0, s1, s2);
    GraphQLParser::lemma_consumed(s0, s2, s3);
    GraphQLParser::lemma_consumed(s0, s3, s4);
    GraphQLParser::lemma_consumed(s0, s4, s5);
    GraphQLParser::lemma_last_end(s0, s5);
    lemma_directives_written_len(x.directives@, consumed(s1, s2), retain);
    let c = consumed(s0, s5);
    let ts = seq![extend] + c;
    let d = s2.pos() - s0.pos() + 1;
    assert(ts[0] == extend);
    assert(ts[1] == s0.rest()[0]);
    assert(ts.last() == c.last());
    assert(ts.subrange(2, d) == consumed(s1, s2)) by {
        assert(ts.subrange(2, d) =~= consumed(s0, s2).subrange(1, d - 1));
    }
    if s5.pos() > s2.pos() {
        assert(ts[d] == consumed(s0, s3)[d - 1]);
        assert(c.last() == s4.rest()[0]);
        assert(ts.subrange(d + 1, ts.len() - 1) == consumed(s3, s4)) by {
            assert(ts.subrange(d + 1, ts.len() - 1) =~= consumed(s0, s4).subrange(d, c.len() - 1));
        }
    }
}

impl<'src> GraphQLParser<'src> {
    /// Parses an extension: `extend` followed by `schema`, `scalar`, `type`,
    /// `interface`, `union`, `enum` or `input`.
    pub(crate) fn parse_type_extension(&mut self) -> (r: Result<ast::Definition, ()>)
        requires
            old(self).inv(),
        ensures
            advanced(*old(self), *final(self)),
            progressed(*old(self), *final(self), r),
            r is Ok ==> old(self).rest().len() > 0 && is_keyword(old(self).rest()[0], "extend"@)
                && extension_is_const(r->Ok_0),
            r is Err && old(self).rest().len() > 0 && is_keyword(old(self).rest()[0], "extend"@)
                ==> final(self).pos() > old(self).pos(),
            r is Ok && final(self).spec_errors().len() == old(self).spec_errors().len() ==> extension_written(
                r->Ok_0,
                consumed(*old(self), *final(self)),
                old(self).spec_config().retain_syntax,
            ),
    {
        let ghost s0 = *self;
        let extend = self.expect_keyword("extend")?;
        let ghost s1 = *self;
        let r = self.parse_extension_after_extend(extend);
        proof {
            if r is Ok && self.spec_errors().len() == s0.spec_errors().len() {
                GraphQLParser::lemma_consumed(s0, s1, *self);
                let ts = consumed(s0, *self);
                assert(ts[0] == s0.rest()[0]);
                assert(ts =~= seq![extend] + consumed(s1, *self));
                assert(ts.subrange(1, ts.len() as int) =~= consumed(s1, *self));
            }
        }
        r
    }

    /// Parses what follows `extend`: a schema extension or a type extension.
    fn parse_extension_after_extend(&mut self, extend: GraphQLToken) -> (r: Result<ast::Definition, ()>)
        requires
            old(self).inv(),
        ensures
            advanced(*old(self), *final(self)),
            progressed(*old(self), *final(self), r),
            r is Ok ==> extension_is_const(r->Ok_0),
            r is Ok ==> (r->Ok_0 matches ast::Definition::SchemaExtension(x) ==> x.span.start_inclusive
                == extend.span.start_inclusive),
            r is Ok && final(self).spec_errors().len() == old(self).spec_errors().len() && is_keyword(extend, "extend"@)
                ==> extension_written(
                r->Ok_0,
                seq![extend] + consumed(*old(self), *final(self)),
                old(self).spec_config().retain_syntax,
            ),
    {
        let ghost s0 = *self;
        let r = {
            if self.peek_is_keyword("schema") {
                self.parse_schema_extension(extend)
            } else if self.peek_is_keyword("scalar") {
                match self.parse_scalar_type_extension() {
                    Ok(t) => Ok(ast::Definition::TypeExtension(t)),
                    Err(()) => Err(()),
                }
            } else if self.peek_is_keyword("type") {
                match self.parse_object_type_extension() {
                    Ok(t) => Ok(ast::Definition::TypeExtension(t)),
                    Err(()) => Err(()),
                }
            } else if self.peek_is_keyword("interface") {
                match self.parse_interface_type_extension() {
                    Ok(t) => Ok(ast::Definition::TypeExtension(t)),
                    Err(()) => Err(()),
                }
            } else if self.peek_is_keyword("union") {
                match self.parse_union_type_extension() {
                    Ok(t) => Ok(ast::Definition::TypeExtension(t)),
                    Err(()) => Err(()),
                }
            } else if self.peek_is_keyword("enum") {
                match self.parse_enum_type_extension() {
                    Ok(t) => Ok(ast::Definition::TypeExtension(t)),
                    Err(()) => Err(()),
                }
            } else if self.peek_is_keyword("input") {
                match self.parse_input_object_type_extension() {
                    Ok(t) => Ok(ast::Definition::TypeExtension(t)),
                    Err(()) => Err(()),
                }
            } else {
                self.record_unexpected(
                    "type extension keyword (`schema`, `scalar`, `type`, `interface`, `union`, `enum`, `input`)",
                    vec![
                        "schema".to_owned(),
                        "scalar".to_owned(),
                        "type".to_owned(),
                        "interface".to_owned(),
                        "union".to_owned(),
                        "enum".to_owned(),
                        "input".to_owned(),
                    ],
                );
                Err(())
            }
        };
        proof {
            let c = consumed(s0, *self);
            assert((seq![extend] + c).subrange(1, c.len() + 1int) =~= c);
        }
        r
    }

    /// Parses a schema extension `extend schema @directives { query: Query
    /// ... }`, after `extend`; its span starts at `extend`.
    fn parse_schema_extension(&mut self, extend: GraphQLToken) -> (r: Result<ast::Definition, ()>)
        requires
            old(self).inv(),
        ensures
            advanced(*old(self), *final(self)),
            progressed(*old(self), *final(self), r),
            r is Ok ==> (r->Ok_0 matches ast::Definition::SchemaExtension(x) && x.span.start_inclusive
                == extend.span.start_inclusive && directives_are_const(x.directives@)),
            r is Ok && final(self).spec_errors().len() == old(self).spec_errors().len() && is_keyword(extend, "extend"@)
                ==> extension_written(
                r->Ok_0,
                seq![extend] + consumed(*old(self), *final(self)),
                old(self).spec_config().retain_syntax,
            ),
    {
        let ghost s0 = *self;
        self.expect_keyword("schema")?;
        let ghost s1 = *self;
        let directives = self.parse_const_directive_annotations()?;
        let ghost s2 = *self;
        let ghost mut s3 = *self;
        let ghost mut s4 = *self;
        let root_operations = if self.peek_is(&GraphQLTokenKind::CurlyBraceOpen) {
            let open = self.take_token();
            self.push_delimiter(open.span.duplicate(), DelimiterContext::SchemaDefinition);
            proof {
                s3 = *self;
            }
            let ops = self.parse_root_operations()?;
            proof {
                s4 = *self;
            }
            self.take_token();
            self.pop_delimiter();
            ops
        } else {
            Vec::new()
        };
        let span = self.span_from(extend.span.start_inclusive);
        let x = ast::SchemaExtension { directives, root_operations, span };
        proof {
            if self.spec_errors().len() == s0.spec_errors().len() && is_keyword(extend, "extend"@) {
                lemma_schema_ext_written(x, extend, s0, s1, s2, s3, s4, *self);
            }
        }
        Ok(ast::Definition::SchemaExtension(x))
    }

    /// Parses `scalar Name @directives` after `extend`.
    fn parse_scalar_type_extension(&mut self) -> (r: Result<ast::TypeExtension, ()>)
        requires
            old(self).inv(),
        ensures
            advanced(*old(self), *final(self)),
            progressed(*old(self), *final(self), r),
            r is Ok ==> is_keyword(old(self).rest()[0], "scalar"@) && r->Ok_0 is Scalar
                && type_ext_parsed(r->Ok_0, old(self).rest()),
            r is Ok && final(self).spec_errors().len() == old(self).spec_errors().len() ==> type_def_written(
                ext_as_def(r->Ok_0),
                consumed(*old(self), *final(self)),
                old(self).spec_config().retain_syntax,
            ),
    {
        let ghost start = *self;
        let keyword = self.expect_keyword("scalar")?;
        proof {
            GraphQLParser::lemma_advanced(start, *self);
        }
        let ghost s1 = *self;
        let name = self.expect_ast_name()?;
        let ghost s2 = *self;
        let ghost s3 = *self;
        let directives = self.parse_const_directive_annotations()?;
        let ghost s4 = *self;
        let span = self.span_from(keyword.span.start_inclusive);
        let t = ast::TypeExtension::Scalar(ast::ScalarTypeExtension { directives, name, span });
        proof {
            if self.spec_errors().len() == start.spec_errors().len() {
                lemma_type_def_assembled(ext_as_def(t), start, s1, s2, s3, s4, *self);
            }
        }
        Ok(t)
    }

    /// Parses `type Name implements A @directives { fields }` after
    /// `extend`.
    fn parse_object_type_extension(&mut self) -> (r: Result<ast::TypeExtension, ()>)
        requires
            old(self).inv(),
        ensures
            advanced(*old(self), *final(self)),
            progressed(*old(self), *final(self), r),
            r is Ok ==> is_keyword(old(self).rest()[0], "type"@) && r->Ok_0 is Object && type_ext_parsed(
                r->Ok_0,
                old(self).rest(),
            ),
            r is Ok && final(self).spec_errors().len() == old(self).spec_errors().len() ==> type_def_written(
                ext_as_def(r->Ok_0),
                consumed(*old(self), *final(self)),
                old(self).spec_config().retain_syntax,
            ),
    {
        let ghost start = *self;
        let keyword = self.expect_keyword("type")?;
        proof {
            GraphQLParser::lemma_advanced(start, *self);
        }
        let ghost s1 = *self;
        let name = self.expect_ast_name()?;
        let ghost s2 = *self;
        let implements = if self.peek_is_keyword("implements") {
            self.parse_ast_implements_interfaces()?
        } else {
            Vec::new()
        };
        let ghost s3 = *self;
        let directives = self.parse_const_directive_annotations()?;
        let ghost s4 = *self;
        let fields = if self.peek_is(&GraphQLTokenKind::CurlyBraceOpen) {
            self.parse_ast_fields_definition(DelimiterContext::ObjectTypeDefinition)?
        } else {
            Vec::new()
        };
        let span = self.span_from(keyword.span.start_inclusive);
        let t = ast::TypeExtension::Object(ast::ObjectTypeExtension { directives, fields, implements, name, span });
        proof {
            if self.spec_errors().len() == start.spec_errors().len() {
                lemma_type_def_assembled(ext_as_def(t), start, s1, s2, s3, s4, *self);
            }
        }
        Ok(t)
    }

    /// Parses `interface Name implements A @directives { fields }` after
    /// `extend`.
    fn parse_interface_type_extension(&mut self) -> (r: Result<ast::TypeExtension, ()>)
        requires
            old(self).inv(),
        ensures
            advanced(*old(self), *final(self)),
            progressed(*old(self), *final(self), r),
            r is Ok ==> is_keyword(old(self).rest()[0], "interface"@) && r->Ok_0 is Interface
                && type_ext_parsed(r->Ok_0, old(self).rest()),
            r is Ok && final(self).spec_errors().len() == old(self).spec_errors().len() ==> type_def_written(
                ext_as_def(r->Ok_0),
                consumed(*old(self), *final(self)),
                old(self).spec_config().retain_syntax,
            ),
    {
        let ghost start = *self;
        let keyword = self.expect_keyword("interface")?;
        proof {
            GraphQLParser::lemma_advanced(start, *self);
        }
        let ghost s1 = *self;
        let name = self.expect_ast_name()?;
        let ghost s2 = *self;
        let implements = if self.peek_is_keyword("implements") {
            self.parse_ast_implements_interfaces()?
        } else {
            Vec::new()
        };
        let ghost s3 = *self;
        let directives = self.parse_const_directive_annotations()?;
        let ghost s4 = *self;
        let fields = if self.peek_is(&GraphQLTokenKind::CurlyBraceOpen) {
            self.parse_ast_fields_definition(DelimiterContext::InterfaceDefinition)?
        } else {
            Vec::new()
        };
        let span = self.span_from(keyword.span.start_inclusive);
        let t = ast::TypeExtension::Interface(ast::InterfaceTypeExtension { directives, fields, implements, name, span });
        proof {
            if self.spec_errors().len() == start.spec_errors().len() {
                lemma_type_def_assembled(ext_as_def(t), start, s1, s2, s3, s4, *self);
            }
        }
        Ok(t)
    }

    /// Parses `union Name @directives = A | B` after `extend`.
    fn parse_union_type_extension(&mut self) -> (r: Result<ast::TypeExtension, ()>)
        requires
            old(self).inv(),
        ensures
            advanced(*old(self), *final(self)),
            progressed(*old(self), *final(self), r),
            r is Ok ==> is_keyword(old(self).rest()[0], "union"@) && r->Ok_0 is Union && type_ext_parsed(
                r->Ok_0,
                old(self).rest(),
            ),
            r is Ok && final(self).spec_errors().len() == old(self).spec_errors().len() ==> type_def_written(
                ext_as_def(r->Ok_0),
                consumed(*old(self), *final(self)),
                old(self).spec_config().retain_syntax,
            ),
    {
        let ghost start = *self;
        let keyword = self.expect_keyword("union")?;
        proof {
            GraphQLParser::lemma_advanced(start, *self);
        }
        let ghost s1 = *self;
        let name = self.expect_ast_name()?;
        let ghost s2 = *self;
        let ghost s3 = *self;
        let directives = self.parse_const_directive_annotations()?;
        let ghost s4 = *self;
        let members = self.parse_union_members()?;
        let span = self.span_from(keyword.span.start_inclusive);
        let t = ast::TypeExtension::Union(ast::UnionTypeExtension { directives, members, name, span });
        proof {
            if self.spec_errors().len() == start.spec_errors().len() {
                lemma_type_def_assembled(ext_as_def(t), start, s1, s2, s3, s4, *self);
            }
        }
        Ok(t)
    }

    /// Parses `enum Name @directives { VALUES }` after `extend`.
    fn parse_enum_type_extension(&mut self) -> (r: Result<ast::TypeExtension, ()>)
        requires
            old(self).inv(),
        ensures
            advanced(*old(self), *final(self)),
            progressed(*old(self), *final(self), r),
            r is Ok ==> is_keyword(old(self).rest()[0], "enum"@) && r->Ok_0 is Enum && type_ext_parsed(
                r->Ok_0,
                old(self).rest(),
            ),
            r is Ok && final(self).spec_errors().len() == old(self).spec_errors().len() ==> type_def_written(
                ext_as_def(r->Ok_0),
                consumed(*old(self), *final(self)),
                old(self).spec_config().retain_syntax,
            ),
    {
        let ghost start = *self;
        let keyword = self.expect_keyword("enum")?;
        proof {
            GraphQLParser::lemma_advanced(start, *self);
        }
        let ghost s1 = *self;
        let name = self.expect_ast_name()?;
        let ghost s2 = *self;
        let ghost s3 = *self;
        let directives = self.parse_const_directive_annotations()?;
        let ghost s4 = *self;
        let values = if self.peek_is(&GraphQLTokenKind::CurlyBraceOpen) {
            self.parse_enum_values_definition()?
        } else {
            Vec::new()
        };
        let span = self.span_from(keyword.span.start_inclusive);
        let t = ast::TypeExtension::Enum(ast::EnumTypeExtension { directives, name, span, values });
        proof {
            if self.spec_errors().len() == start.spec_errors().len() {
                lemma_type_def_assembled(ext_as_def(t), start, s1, s2, s3, s4, *self);
            }
        }
        Ok(t)
    }

    /// Parses `input Name @directives { fields }` after `extend`.
    fn parse_input_object_type_extension(&mut self) -> (r: Result<ast::TypeExtension, ()>)
        requires
            old(self).inv(),
        ensures
            advanced(*old(self), *final(self)),
            progressed(*old(self), *final(self), r),
            r is Ok ==> is_keyword(old(self).rest()[0], "input"@) && r->Ok_0 is InputObject
                && type_ext_parsed(r->Ok_0, old(self).rest()),
            r is Ok && final(self).spec_errors().len() == old(self).spec_errors().len() ==> type_def_written(
                ext_as_def(r->Ok_0),
                consumed(*old(self), *final(self)),
                old(self).spec_config().retain_syntax,
            ),
    {
        let ghost start = *self;
        let keyword = self.expect_keyword("input")?;
        proof {
            GraphQLParser::lemma_advanced(start, *self);
        }
        let ghost s1 = *self;
        let name = self.expect_ast_name()?;
        let ghost s2 = *self;
        let ghost s3 = *self;
        let directives = self.parse_const_directive_annotations()?;
        let ghost s4 = *self;
        let fields = if self.peek_is(&GraphQLTokenKind::CurlyBraceOpen) {
            self.parse_input_fields_definition()?
        } else {
            Vec::new()
        };
        let span = self.span_from(keyword.span.start_inclusive);
        let t = ast::TypeExtension::InputObject(ast::InputObjectTypeExtension { directives, fields, name, span });
        proof {
            if self.spec_errors().len() == start.spec_errors().len() {
                lemma_type_def_assembled(ext_as_def(t), start, s1, s2, s3, s4, *self);
            }
        }
        Ok(t)
    }
}

} // verus!
