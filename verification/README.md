# libgraphql_parser

An error-tolerant GraphQL tokenizer and parser, verified with Verus,
with a conversion layer to and from the `graphql_parser` v0.4 AST.

- `src/lexer.rs` turns source text into tokens, each carrying the comments
  and commas before it as trivia. Its contract accounts for every byte:
  tokens, trivia and whitespace, with each token's line and columns.
- `src/graphql_parser.rs` and `src/graphql_parser/` parse schema,
  executable and mixed documents, recording errors and recovering at the
  next definition. When no error was recorded, each parse function states,
  over spec functions such as `value_written` and `document_written`, which
  tokens the returned AST is written with. Values, argument lists,
  directives and type annotations are also proved to parse without error,
  consuming exactly their tokens, whenever the tokens write one.
- `src/compat_graphql_parser_v0_4/` converts between this crate's AST and a
  plain-value model of the `graphql_parser` AST, with round-trip lemmas.
- `app/` holds the parts that Verus does not see: the conversion between the
  model and the real `graphql_parser` types, and error types with
  `Display`.

`tests/` exercises the library on concrete documents.
