use libgraphql_parser::ast;
use libgraphql_parser::lexer::tokenize;
use libgraphql_parser::token::GraphQLTokenKind;
use libgraphql_parser::token::GraphQLTriviaToken;
use libgraphql_parser::ByteSpan;
use libgraphql_parser::DefinitionKind;
use libgraphql_parser::DocumentKind;
use libgraphql_parser::GraphQLErrorNoteKind;
use libgraphql_parser::GraphQLParseErrorKind;
use libgraphql_parser::GraphQLParser;
use libgraphql_parser::GraphQLParserConfig;
use libgraphql_parser::GraphQLTokenStream;
use libgraphql_parser::ReservedNameContext;
use libgraphql_parser::SourceMap;
use libgraphql_parser::ValueParsingError;

fn first_field_arg(doc: &ast::Document) -> &ast::Value {
    match &doc.definitions[0] {
        ast::Definition::OperationDefinition(op) => match &op.selection_set.selections[0] {
            ast::Selection::Field(f) => &f.arguments[0].value,
            other => panic!("expected a field, got {other:?}"),
        },
        other => panic!("expected an operation, got {other:?}"),
    }
}

#[test]
fn parses_valid_mixed_document() {
    let r = libgraphql_parser::parse(
        "type User { firstName: String, lastName: String }\ntype Query { me: User }\n\nquery GetUserFullName {\n  me {\n    firstName,\n    lastName,\n  }\n}\n",
    );
    assert!(r.valid().is_some());
    assert_eq!(r.ast().definitions.len(), 3);
    assert_eq!(r.schema_definitions().len(), 2);
    assert_eq!(r.executable_definitions().len(), 1);
    assert_eq!(r.definitions().len(), 3);
}

#[test]
fn recovers_after_missing_colon() {
    let r = libgraphql_parser::parse("\n  type User { firstName String }\n  type Query { me: User }\n");
    assert!(!r.errors().is_empty());
    let (ast, errors, _) = r.recovered().unwrap();
    assert_eq!(ast.definitions.len(), 1);
    assert_eq!(errors.len(), 1);
    match errors[0].kind() {
        GraphQLParseErrorKind::UnexpectedToken { expected, found } => {
            assert_eq!(expected, &vec![":".to_string()]);
            assert_eq!(found, "String");
        },
        other => panic!("unexpected error kind {other:?}"),
    }
}

#[test]
fn int_literal_overflowing_32_bits_is_reported_and_clamped() {
    let r = libgraphql_parser::parse_executable("{ f(a: 2147483648) }");
    assert_eq!(r.errors().len(), 1);
    assert_eq!(
        r.errors()[0].kind(),
        &GraphQLParseErrorKind::InvalidValue(ValueParsingError::Int("2147483648".to_string())),
    );
    assert_eq!(r.errors()[0].message(), "integer `2147483648` overflows 32-bit integer");
    match first_field_arg(r.ast()) {
        ast::Value::Int(i) => assert_eq!(i.value, i32::MAX),
        other => panic!("expected an int, got {other:?}"),
    }
}

#[test]
fn int_literal_underflowing_32_bits_is_clamped_to_min() {
    let r = libgraphql_parser::parse_executable("{ f(a: -2147483649) }");
    assert_eq!(r.errors().len(), 1);
    match first_field_arg(r.ast()) {
        ast::Value::Int(i) => assert_eq!(i.value, i32::MIN),
        other => panic!("expected an int, got {other:?}"),
    }
    let r = libgraphql_parser::parse_executable("{ f(a: -99999999999999999999) }");
    assert_eq!(r.errors().len(), 1);
    assert_eq!(r.errors()[0].message(), "invalid integer `-99999999999999999999`");
    match first_field_arg(r.ast()) {
        ast::Value::Int(i) => assert_eq!(i.value, i32::MIN),
        other => panic!("expected an int, got {other:?}"),
    }
}

#[test]
fn int_literal_limits_are_values() {
    let r = libgraphql_parser::parse_executable("{ f(a: -2147483648) }");
    assert!(!r.has_errors());
    match first_field_arg(r.ast()) {
        ast::Value::Int(i) => {
            assert_eq!(i.value, i32::MIN);
            assert_eq!(i.as_i64(), -2147483648i64);
        },
        other => panic!("expected an int, got {other:?}"),
    }
    let r = libgraphql_parser::parse_executable("{ f(a: 2147483647) }");
    assert!(!r.has_errors());
}

#[test]
fn int_literal_beyond_64_bits_is_invalid() {
    let r = libgraphql_parser::parse_executable("{ f(a: 99999999999999999999) }");
    assert_eq!(r.errors().len(), 1);
    assert_eq!(r.errors()[0].message(), "invalid integer `99999999999999999999`");
}

#[test]
fn scalar_values_keep_their_tokens_by_default() {
    let r = libgraphql_parser::parse_executable("{ f(a: \"hi\") }");
    match first_field_arg(r.ast()) {
        ast::Value::String(s) => {
            assert_eq!(s.value, "hi");
            assert!(!s.is_block);
            let syntax = s.syntax.as_ref().unwrap();
            assert!(matches!(syntax.token.kind, GraphQLTokenKind::StringValue { .. }));
        },
        other => panic!("expected a string, got {other:?}"),
    }
}

#[test]
fn lean_config_keeps_no_tokens() {
    let r = GraphQLParser::with_config("{ f(a: 1) }", GraphQLParserConfig::lean()).parse_executable_document();
    match first_field_arg(r.ast()) {
        ast::Value::Int(i) => {
            assert_eq!(i.value, 1);
            assert!(i.syntax.is_none());
        },
        other => panic!("expected an int, got {other:?}"),
    }
}

#[test]
fn variables_are_not_allowed_in_default_values() {
    let r = libgraphql_parser::parse_executable("query Q($a: Int = $b) { f }");
    assert_eq!(r.errors().len(), 1);
    assert_eq!(r.errors()[0].kind(), &GraphQLParseErrorKind::InvalidSyntax);
    assert_eq!(r.errors()[0].message(), "variables are not allowed in variable default values");
}

#[test]
fn variables_are_allowed_in_field_arguments() {
    let r = libgraphql_parser::parse_executable("query Q($a: Int) { f(x: $a) }");
    assert!(!r.has_errors());
    match first_field_arg(r.ast()) {
        ast::Value::Variable(v) => assert_eq!(v.name.value, "a"),
        other => panic!("expected a variable, got {other:?}"),
    }
}

#[test]
fn unclosed_selection_set_is_reported_with_a_note() {
    let r = libgraphql_parser::parse_executable("{ a");
    assert_eq!(r.errors().len(), 1);
    assert_eq!(
        r.errors()[0].kind(),
        &GraphQLParseErrorKind::UnclosedDelimiter { delimiter: "{".to_string() },
    );
    let notes = r.errors()[0].notes();
    assert_eq!(notes.len(), 1);
    assert_eq!(notes[0].message, "opening `{` in selection set here");
}

#[test]
fn empty_selection_set_is_reported() {
    let r = libgraphql_parser::parse_executable("{ }");
    assert_eq!(r.errors().len(), 1);
    assert_eq!(
        r.errors()[0].kind(),
        &GraphQLParseErrorKind::InvalidEmptyConstruct { construct: "selection set".to_string() },
    );
    assert_eq!(r.ast().definitions.len(), 1);
}

#[test]
fn operation_in_schema_document_is_reported() {
    // Recovery stops at the `{` after `query`, which is reported again.
    let r = libgraphql_parser::parse_schema("query { a }\ntype A { b: Int }");
    assert_eq!(r.errors().len(), 2);
    assert_eq!(
        r.errors()[0].kind(),
        &GraphQLParseErrorKind::WrongDocumentKind {
            found: DefinitionKind::Operation,
            document_kind: DocumentKind::Schema,
        },
    );
    assert_eq!(r.ast().definitions.len(), 1);
    assert!(matches!(r.ast().definitions[0], ast::Definition::TypeDefinition(_)));
}

#[test]
fn type_definition_in_executable_document_is_reported() {
    // Recovery resumes at `{`, so `{ b: Int }` reads as a shorthand query
    // selecting `Int` under the alias `b`.
    let r = libgraphql_parser::parse_executable("type A { b: Int }\nquery { a }");
    assert_eq!(r.errors().len(), 1);
    assert_eq!(
        r.errors()[0].kind(),
        &GraphQLParseErrorKind::WrongDocumentKind {
            found: DefinitionKind::TypeDefinition,
            document_kind: DocumentKind::Executable,
        },
    );
    assert_eq!(r.ast().definitions.len(), 2);
    assert!(matches!(r.ast().definitions[1], ast::Definition::OperationDefinition(_)));
}

#[test]
fn described_type_in_executable_document_is_reported() {
    let r = libgraphql_parser::parse_executable("\"doc\" type A { b: Int }");
    assert_eq!(
        r.errors()[0].kind(),
        &GraphQLParseErrorKind::WrongDocumentKind {
            found: DefinitionKind::TypeDefinition,
            document_kind: DocumentKind::Executable,
        },
    );
}

#[test]
fn fragment_named_on_is_reported() {
    let r = libgraphql_parser::parse_executable("fragment on on T { a }");
    assert_eq!(r.errors().len(), 1);
    assert_eq!(
        r.errors()[0].kind(),
        &GraphQLParseErrorKind::ReservedName {
            name: "on".to_string(),
            context: ReservedNameContext::FragmentName,
        },
    );
    assert_eq!(r.ast().definitions.len(), 1);
}

#[test]
fn enum_value_true_is_reported() {
    let r = libgraphql_parser::parse_schema("enum E { true A }");
    assert_eq!(r.errors().len(), 1);
    assert_eq!(
        r.errors()[0].kind(),
        &GraphQLParseErrorKind::ReservedName {
            name: "true".to_string(),
            context: ReservedNameContext::EnumValue,
        },
    );
}

#[test]
fn misspelled_directive_location_gets_a_suggestion() {
    let r = libgraphql_parser::parse_schema("directive @d on FEILD");
    assert_eq!(r.errors().len(), 1);
    assert_eq!(r.errors()[0].message(), "unknown directive location `FEILD`");
    let notes = r.errors()[0].notes();
    assert_eq!(notes.len(), 1);
    assert_eq!(notes[0].kind, GraphQLErrorNoteKind::Help);
    assert_eq!(notes[0].message, "did you mean `FIELD`?");
}

#[test]
fn lowercase_directive_location_is_suggested_in_uppercase() {
    let r = libgraphql_parser::parse_schema("directive @d on field_definition");
    assert_eq!(r.errors()[0].notes()[0].message, "did you mean `FIELD_DEFINITION`?");
}

#[test]
fn far_directive_location_gets_no_suggestion() {
    let r = libgraphql_parser::parse_schema("directive @d on NOWHERE_AT_ALL");
    assert_eq!(r.errors().len(), 1);
    assert!(r.errors()[0].notes().is_empty());
}

#[test]
fn directive_definition_is_parsed() {
    let r = libgraphql_parser::parse_schema("directive @d(a: Int = 1) repeatable on | FIELD | QUERY");
    assert!(!r.has_errors());
    match &r.ast().definitions[0] {
        ast::Definition::DirectiveDefinition(d) => {
            assert_eq!(d.name.value, "d");
            assert!(d.repeatable);
            assert_eq!(d.arguments.len(), 1);
            assert_eq!(d.locations.len(), 2);
            assert_eq!(d.locations[0].kind, ast::DirectiveLocationKind::Field);
            assert_eq!(d.locations[1].kind, ast::DirectiveLocationKind::Query);
        },
        other => panic!("expected a directive definition, got {other:?}"),
    }
}

#[test]
fn deep_nesting_is_an_error() {
    let source = format!("{{ f(a: {}1{}) }}", "[".repeat(40), "]".repeat(40));
    let r = libgraphql_parser::parse_executable(&source);
    assert!(r.has_errors());
    assert!(r.errors().iter().any(|e| e.message() == "maximum nesting depth exceeded"));
}

#[test]
fn nesting_within_the_limit_is_accepted() {
    let source = format!("{{ f(a: {}1{}) }}", "[".repeat(20), "]".repeat(20));
    let r = libgraphql_parser::parse_executable(&source);
    assert!(!r.has_errors());
}

#[test]
fn list_value_recovers_from_bad_elements() {
    let r = libgraphql_parser::parse_executable("{ f(a: [1, ), 2]) }");
    assert_eq!(r.errors().len(), 1);
    match first_field_arg(r.ast()) {
        ast::Value::List(l) => assert_eq!(l.values.len(), 2),
        other => panic!("expected a list, got {other:?}"),
    }
}

#[test]
fn spans_follow_the_tokens() {
    let r = libgraphql_parser::parse_executable("query Q {\n  a: b\n  ...F\n}");
    assert!(!r.has_errors());
    match &r.ast().definitions[0] {
        ast::Definition::OperationDefinition(op) => {
            assert_eq!(op.span.start_inclusive.byte_offset(), 0);
            let ss = &op.selection_set;
            assert_eq!(ss.span.start_inclusive.byte_offset(), 8);
            // The selection set ends where its closing brace starts.
            assert_eq!(ss.span.end_exclusive.byte_offset(), 24);
            match &ss.selections[0] {
                ast::Selection::Field(f) => {
                    assert_eq!(f.alias.as_ref().unwrap().value, "a");
                    assert_eq!(f.name.value, "b");
                    assert_eq!(f.span.start_inclusive.line(), 1);
                    assert_eq!(f.span.start_inclusive.col_utf8(), 2);
                },
                other => panic!("expected a field, got {other:?}"),
            }
            match &ss.selections[1] {
                // The spread starts at its name, after `...`.
                ast::Selection::FragmentSpread(s) => assert_eq!(s.span.start_inclusive.col_utf8(), 5),
                other => panic!("expected a spread, got {other:?}"),
            }
        },
        other => panic!("expected an operation, got {other:?}"),
    }
    assert_eq!(r.span().end_exclusive.byte_offset(), 25);
}

#[test]
fn described_field_starts_at_its_description() {
    let r = libgraphql_parser::parse_schema("type T {\n  \"d\" a: Int\n}");
    match &r.ast().definitions[0] {
        ast::Definition::TypeDefinition(ast::TypeDefinition::Object(o)) => {
            let f = &o.fields[0];
            assert_eq!(f.description.as_ref().unwrap().value, "d");
            assert_eq!(f.span.start_inclusive.col_utf8(), 2);
            assert_eq!(f.name.span.start_inclusive.col_utf8(), 6);
        },
        other => panic!("expected an object type, got {other:?}"),
    }
}

#[test]
fn variable_definition_keeps_its_tokens() {
    let r = libgraphql_parser::parse_executable("query Q($a: Int = 3) { f }");
    match &r.ast().definitions[0] {
        ast::Definition::OperationDefinition(op) => {
            let v = &op.variable_definitions[0];
            assert_eq!(v.variable.value, "a");
            let syntax = v.syntax.as_ref().unwrap();
            assert_eq!(syntax.dollar.kind, GraphQLTokenKind::Dollar);
            assert_eq!(syntax.colon.kind, GraphQLTokenKind::Colon);
            assert_eq!(syntax.equals.as_ref().unwrap().kind, GraphQLTokenKind::Equals);
        },
        other => panic!("expected an operation, got {other:?}"),
    }
}

#[test]
fn schema_definition_and_extension_are_parsed() {
    let r = libgraphql_parser::parse_schema("schema { query: Q mutation: M }\nextend schema @d");
    assert!(!r.has_errors());
    match &r.ast().definitions[0] {
        ast::Definition::SchemaDefinition(s) => {
            assert_eq!(s.root_operations.len(), 2);
            assert_eq!(s.root_operations[1].operation_kind, ast::OperationKind::Mutation);
            assert_eq!(s.root_operations[1].named_type.value, "M");
        },
        other => panic!("expected a schema definition, got {other:?}"),
    }
    assert!(matches!(r.ast().definitions[1], ast::Definition::SchemaExtension(_)));
}

#[test]
fn unknown_root_operation_is_reported() {
    // After the unknown name, parsing goes on at its `:`, which is not a
    // name.
    let r = libgraphql_parser::parse_schema("schema { read: Q query: R }");
    assert_eq!(r.errors().len(), 2);
    assert_eq!(r.errors()[0].message(), "unknown operation type `read`; expected `query`, `mutation`, or `subscription`");
    assert!(matches!(r.errors()[1].kind(), GraphQLParseErrorKind::UnexpectedToken { .. }));
}

#[test]
fn lexer_errors_become_parse_errors() {
    let r = libgraphql_parser::parse_executable("{ a(x: \"unterminated) }");
    assert!(r.has_errors());
    assert!(r.errors().iter().any(|e| e.kind() == &GraphQLParseErrorKind::LexerError));
}

#[test]
fn parser_from_tokens_has_a_precomputed_source_map() {
    let tokens = tokenize("{ a }");
    let r = GraphQLParser::from_token_source(tokens).parse_executable_document();
    assert!(!r.has_errors());
    assert!(r.source_map().source().is_none());
    let r = GraphQLParser::new("{ a }").parse_executable_document();
    assert_eq!(r.source_map().source(), Some("{ a }"));
}

#[test]
fn token_stream_peeks_and_consumes_in_order() {
    let mut s = GraphQLTokenStream::new(tokenize("a { }"));
    assert_eq!(s.current_buffer_len(), 0);
    assert!(matches!(s.peek().unwrap().kind, GraphQLTokenKind::Name(_)));
    assert_eq!(s.current_buffer_len(), 1);
    assert_eq!(s.peek_nth(1).unwrap().kind, GraphQLTokenKind::CurlyBraceOpen);
    assert_eq!(s.current_buffer_len(), 2);
    assert_eq!(s.peek_nth(3).unwrap().kind, GraphQLTokenKind::Eof);
    assert_eq!(s.current_buffer_len(), 4);
    assert!(s.peek_nth(4).is_none());
    assert_eq!(s.current_buffer_len(), 4);
    assert!(!s.is_at_end());
    let t = s.consume().unwrap();
    assert_eq!(t.kind, GraphQLTokenKind::Name("a".to_string()));
    assert_eq!(s.current_buffer_len(), 3);
    s.consume();
    s.consume();
    assert!(s.is_at_end());
    assert_eq!(s.consume().unwrap().kind, GraphQLTokenKind::Eof);
    assert!(s.consume().is_none());
    assert!(s.is_at_end());
}

#[test]
fn token_stream_pulls_only_what_lookahead_needs() {
    let mut s = GraphQLTokenStream::new(tokenize("a b c d"));
    assert_eq!(s.current_buffer_len(), 0);
    assert_eq!(s.peek_nth(2).unwrap().kind, GraphQLTokenKind::Name("c".to_string()));
    assert_eq!(s.current_buffer_len(), 3);
    assert_eq!(s.peek().unwrap().kind, GraphQLTokenKind::Name("a".to_string()));
    assert_eq!(s.current_buffer_len(), 3);
    assert_eq!(s.consume().unwrap().kind, GraphQLTokenKind::Name("a".to_string()));
    assert_eq!(s.current_buffer_len(), 2);
    assert!(s.peek_nth(10).is_none());
    assert_eq!(s.current_buffer_len(), 4);
}

#[test]
fn tokenize_tracks_lines_and_columns() {
    let ts = tokenize("a\r\n  b c");
    assert_eq!(ts.len(), 4);
    assert_eq!(ts[1].kind, GraphQLTokenKind::Name("b".to_string()));
    assert_eq!(ts[1].span.start_inclusive.line(), 1);
    assert_eq!(ts[1].span.start_inclusive.col_utf8(), 2);
    assert_eq!(ts[1].span.start_inclusive.byte_offset(), 5);
}

#[test]
fn tokenize_processes_block_strings() {
    let ts = tokenize("\"\"\"\n    hello\n      world\n\"\"\"");
    match &ts[0].kind {
        GraphQLTokenKind::StringValue { value, is_block } => {
            assert!(*is_block);
            assert_eq!(value, "hello\n  world");
        },
        other => panic!("expected a block string, got {other:?}"),
    }
}

#[test]
fn tokenize_processes_escapes() {
    let ts = tokenize(r#""a\nb\u0041\"""#);
    match &ts[0].kind {
        GraphQLTokenKind::StringValue { value, is_block } => {
            assert!(!*is_block);
            assert_eq!(value, "a\nbA\"");
        },
        other => panic!("expected a string, got {other:?}"),
    }
}

#[test]
fn tokenize_numbers() {
    let ts = tokenize("-12 3.5e-2 0");
    assert_eq!(ts[0].kind, GraphQLTokenKind::IntValue("-12".to_string()));
    assert_eq!(ts[1].kind, GraphQLTokenKind::FloatValue("3.5e-2".to_string()));
    assert_eq!(ts[2].kind, GraphQLTokenKind::IntValue("0".to_string()));
    assert_eq!(ts[3].kind, GraphQLTokenKind::Eof);
}

#[test]
fn byte_span_resolves_through_a_source_map() {
    let sm = SourceMap::new_with_source("ab\ncd", None);
    let s = ByteSpan::new(3, 5).resolve(&sm).unwrap();
    assert_eq!(s.start_inclusive.line(), 1);
    assert_eq!(s.start_inclusive.col_utf8(), 0);
    assert_eq!(s.end_exclusive.col_utf8(), 2);
    assert!(ByteSpan::new(3, 9).resolve(&sm).is_none());
}

#[test]
fn merged_byte_span_covers_both() {
    let a = ByteSpan::new(3, 5);
    let b = ByteSpan::new(1, 4);
    assert_eq!(a.merge(b), ByteSpan::new(1, 5));
    assert_eq!(b.merge(a), ByteSpan::new(1, 5));
    assert_eq!(a.merge(a), a);
}

#[test]
fn variable_reference_name_value() {
    let r = ast::VariableReference {
        name: ast::Name {
            value: "id".to_string(),
            span: libgraphql_parser::GraphQLSourceSpan::new(
                libgraphql_parser::SourcePosition::new(0, 1, Some(1), 1),
                libgraphql_parser::SourcePosition::new(0, 3, Some(3), 3),
            ),
        },
        span: libgraphql_parser::GraphQLSourceSpan::new(
            libgraphql_parser::SourcePosition::new(0, 0, Some(0), 0),
            libgraphql_parser::SourcePosition::new(0, 3, Some(3), 3),
        ),
        syntax: None,
    };
    assert_eq!(r.name_value(), "id");
}

#[test]
fn tokenize_keeps_commas_and_comments_as_trivia() {
    let ts = tokenize("a, # hi\n b");
    assert_eq!(ts.len(), 3);
    assert!(ts[0].preceding_trivia.is_empty());
    assert_eq!(ts[1].preceding_trivia.len(), 2);
    match &ts[1].preceding_trivia[0] {
        GraphQLTriviaToken::Comma { span } => {
            assert_eq!(span.start_inclusive.byte_offset(), 1);
            assert_eq!(span.end_exclusive.byte_offset(), 2);
        },
        other => panic!("expected a comma, got {other:?}"),
    }
    match &ts[1].preceding_trivia[1] {
        GraphQLTriviaToken::Comment { value, span } => {
            assert_eq!(value, " hi");
            assert_eq!(span.start_inclusive.byte_offset(), 3);
            assert_eq!(span.end_exclusive.byte_offset(), 7);
        },
        other => panic!("expected a comment, got {other:?}"),
    }
    assert!(matches!(ts[2].kind, GraphQLTokenKind::Eof));
    assert!(ts[2].preceding_trivia.is_empty());
}

#[test]
fn document_keeps_trailing_trivia() {
    let r = libgraphql_parser::parse_schema("type A # the end\n,");
    assert!(!r.has_errors());
    let trivia = r.trailing_trivia().expect("syntax is retained by default");
    assert_eq!(trivia.len(), 2);
    match &trivia[0] {
        GraphQLTriviaToken::Comment { value, .. } => assert_eq!(value, " the end"),
        other => panic!("expected a comment, got {other:?}"),
    }
    assert!(matches!(trivia[1], GraphQLTriviaToken::Comma { .. }));
    assert!(r.syntax().is_some());
}

#[test]
fn document_without_retained_syntax_has_no_trailing_trivia() {
    let config = GraphQLParserConfig::lean();
    let r = GraphQLParser::with_config("type A # the end", config).parse_schema_document();
    assert!(r.syntax().is_none());
    assert!(r.trailing_trivia().is_none());
}

#[test]
fn shorthand_query_is_flagged() {
    let r = libgraphql_parser::parse_executable("{ a }");
    match &r.ast().definitions[0] {
        ast::Definition::OperationDefinition(op) => {
            assert!(op.shorthand);
            assert_eq!(op.operation_kind, ast::OperationKind::Query);
        },
        other => panic!("expected an operation, got {other:?}"),
    }
    let r = libgraphql_parser::parse_executable("query { a }");
    match &r.ast().definitions[0] {
        ast::Definition::OperationDefinition(op) => assert!(!op.shorthand),
        other => panic!("expected an operation, got {other:?}"),
    }
}

#[test]
fn tokenize_takes_the_longest_name_and_number() {
    let ts = tokenize("type: String 12.5e3 \u{feff}truex");
    assert_eq!(ts[0].kind, GraphQLTokenKind::Name("type".to_string()));
    assert_eq!(ts[0].span.end_exclusive.byte_offset(), 4);
    assert_eq!(ts[1].kind, GraphQLTokenKind::Colon);
    assert_eq!(ts[2].kind, GraphQLTokenKind::Name("String".to_string()));
    assert_eq!(ts[3].kind, GraphQLTokenKind::FloatValue("12.5e3".to_string()));
    assert_eq!(ts[4].kind, GraphQLTokenKind::Name("truex".to_string()));
    assert_eq!(ts[4].span.start_inclusive.byte_offset(), 23);
    assert!(matches!(ts[5].kind, GraphQLTokenKind::Eof));
    assert_eq!(ts.len(), 6);
}

#[test]
fn tokenize_tells_block_strings_from_empty_strings() {
    let ts = tokenize("\"\" \"\"\"x\"\"\"");
    assert_eq!(ts[0].kind, GraphQLTokenKind::StringValue { value: String::new(), is_block: false });
    assert_eq!(ts[1].kind, GraphQLTokenKind::StringValue { value: "x".to_string(), is_block: true });
    assert_eq!(ts[1].span.end_exclusive.byte_offset(), 10);
}

#[test]
fn tokenize_places_tokens_after_crlf() {
    let ts = tokenize("a\r\n\u{e9}b\r\nc");
    assert!(matches!(ts[1].kind, GraphQLTokenKind::Error { .. }));
    assert_eq!(ts[2].span.start_inclusive.line(), 1);
    assert_eq!(ts[2].span.start_inclusive.col_utf8(), 1);
    assert_eq!(ts[3].span.start_inclusive.line(), 2);
    assert_eq!(ts[3].span.start_inclusive.col_utf8(), 0);
}

#[test]
fn tokenize_reports_only_invalid_numbers() {
    let ts = tokenize("12 01 1.e3 -0");
    assert_eq!(ts[0].kind, GraphQLTokenKind::IntValue("12".to_string()));
    assert!(matches!(ts[1].kind, GraphQLTokenKind::Error { .. }));
    assert!(matches!(ts.iter().rev().nth(1).unwrap().kind, GraphQLTokenKind::IntValue(_)));
}

#[test]
fn tokenize_dedents_block_strings() {
    let ts = tokenize("\"\"\"\n    a\n      b\n\n    c\n  \"\"\"");
    assert_eq!(ts[0].kind, GraphQLTokenKind::StringValue { value: "a\n  b\n\nc".to_string(), is_block: true });
}
