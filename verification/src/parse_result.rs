use crate::graphql_parse_error::displayable;
use crate::graphql_parse_error::note_displayable;
use crate::graphql_parse_error::opt_bytes;
use crate::graphql_parse_error::GraphQLParseError;
use crate::ast;
use crate::graphql_parser::documents::is_executable_definition;
use crate::graphql_parser::documents::is_type_system_definition;
use crate::graphql_source_span::GraphQLSourceSpan;
use crate::source_map::SourceMap;
use crate::token::GraphQLTriviaToken;
use vstd::prelude::*;

verus! {

/// The error can be rendered in detail (its positions and those of its
/// notes can be shown 1-based without overflow).
pub open spec fn error_renderable(e: GraphQLParseError) -> bool {
    &&& displayable(e.spec_source_span())
    &&& forall|i: int| 0 <= i < e.spec_notes().len() ==> note_displayable(#[trigger] e.spec_notes()[i])
}

/// The detailed renderings of `errors`, separated by newlines.
pub open spec fn errors_text(errors: Seq<GraphQLParseError>, source: Option<Seq<u8>>) -> Seq<char>
    decreases errors.len(),
{
    if errors.len() == 0 {
        Seq::empty()
    } else if errors.len() == 1 {
        errors[0].detailed_text(source)
    } else {
        errors_text(errors.drop_last(), source) + "\n"@ + errors.last().detailed_text(source)
    }
}

/// The result of a parsing (or conversion) operation, which always carries
/// an AST and may carry errors.
///
/// `Ok` is a completely successful parse; `Recovered` is a best-effort AST
/// produced via error recovery together with the (non-empty) errors found.
#[derive(Debug)]
pub enum ParseResult<'src, TAst> {
    /// Completely successful parse.
    Success {
        /// The parsed AST.
        ast: TAst,
        /// Maps byte offsets to line/column positions.
        source_map: SourceMap<'src>,
    },
    /// Recovered parse: an AST was produced, but errors were encountered.
    Recovered {
        /// The recovered AST.
        ast: TAst,
        /// Errors encountered during parsing (always non-empty).
        errors: Vec<GraphQLParseError>,
        /// Maps byte offsets to line/column positions.
        source_map: SourceMap<'src>,
    },
}

impl<'src, TAst> ParseResult<'src, TAst> {
    /// The invariant: a recovered result has at least one error, and the
    /// source map is well formed.
    pub open spec fn wf(&self) -> bool {
        match self {
            ParseResult::Success { source_map, .. } => source_map.wf(),
            ParseResult::Recovered { errors, source_map, .. } => errors.len() > 0 && source_map.wf(),
        }
    }

    /// The AST carried by the result.
    pub open spec fn spec_ast(&self) -> TAst {
        match self {
            ParseResult::Success { ast, .. } => *ast,
            ParseResult::Recovered { ast, .. } => *ast,
        }
    }

    /// The errors carried by the result (empty for `Ok`).
    pub open spec fn spec_errors(&self) -> Seq<GraphQLParseError> {
        match self {
            ParseResult::Success { .. } => Seq::empty(),
            ParseResult::Recovered { errors, .. } => errors@,
        }
    }

    /// The source map carried by the result.
    pub open spec fn spec_source_map(&self) -> SourceMap<'src> {
        match self {
            ParseResult::Success { source_map, .. } => *source_map,
            ParseResult::Recovered { source_map, .. } => *source_map,
        }
    }

    /// Returns the AST (present whether or not errors occurred).
    pub fn ast(&self) -> (r: &TAst)
        ensures
            *r == self.spec_ast(),
    {
        match self {
            ParseResult::Success { ast, .. } => ast,
            ParseResult::Recovered { ast, .. } => ast,
        }
    }

    /// Returns the errors encountered: empty for `Ok`, the non-empty error
    /// list for `Recovered`.
    pub fn errors(&self) -> (r: &[GraphQLParseError])
        ensures
            r@ == self.spec_errors(),
    {
        match self {
            ParseResult::Success { .. } => {
                let empty: &[GraphQLParseError] = &[];
                assert(empty@ =~= Seq::<GraphQLParseError>::empty());
                empty
            },
            ParseResult::Recovered { errors, .. } => errors.as_slice(),
        }
    }

    /// Formats all errors (with the bundled source text, when available)
    /// as a single string, separated by newlines.
    pub fn formatted_errors(&self) -> (r: String)
        requires
            self.wf(),
            forall|i: int| 0 <= i < self.spec_errors().len() ==> error_renderable(
                #[trigger] self.spec_errors()[i],
            ),
        ensures
            r@ == errors_text(self.spec_errors(), match self.spec_source_map()@.mode {
                crate::source_map::SourceMapMode::Text { bytes, .. } => Some(bytes),
                _ => None,
            }),
    {
        let source = self.source_map().source();
        self.format_errors(source)
    }

    /// Formats all errors against the given source text (for snippets),
    /// separated by newlines.
    pub fn format_errors(&self, source: Option<&str>) -> (r: String)
        requires
            forall|i: int| 0 <= i < self.spec_errors().len() ==> error_renderable(
                #[trigger] self.spec_errors()[i],
            ),
        ensures
            r@ == errors_text(self.spec_errors(), opt_bytes(source)),
    {
        let errors = self.errors();
        let mut out = String::new();
        let mut i: usize = 0;
        while i < errors.len()
            invariant
                i <= errors@.len(),
                errors@ == self.spec_errors(),
                forall|j: int| 0 <= j < errors@.len() ==> error_renderable(#[trigger] errors@[j]),
                out@ == errors_text(errors@.take(i as int), opt_bytes(source)),
            decreases errors@.len() - i,
        {
            if i > 0 {
                out.append("\n");
            }
            let e = &errors[i];
            assert(error_renderable(errors@[i as int]));
            let text = e.format_detailed(source);
            out.append(text.as_str());
            proof {
                assert(errors@.take(i + 1).drop_last() =~= errors@.take(i as int));
                if i == 0 {
                    assert(errors@.take(1) =~= seq![errors@[0]]);
                }
            }
            i = i + 1;
            assert(out@ =~= errors_text(errors@.take(i as int), opt_bytes(source)));
        }
        assert(errors@.take(i as int) =~= errors@);
        out
    }

    /// Returns `true` if any errors were encountered during parsing.
    pub fn has_errors(&self) -> (r: bool)
        ensures
            r == self is Recovered,
            self.wf() ==> (r <==> self.spec_errors().len() > 0),
    {
        match self {
            ParseResult::Success { .. } => false,
            ParseResult::Recovered { .. } => true,
        }
    }

    /// Returns `true` if no errors were encountered.
    pub fn is_ok(&self) -> (r: bool)
        ensures
            r == self is Success,
    {
        match self {
            ParseResult::Success { .. } => true,
            ParseResult::Recovered { .. } => false,
        }
    }

    /// Takes ownership of the AST unconditionally.
    pub fn into_ast(self) -> (r: TAst)
        ensures
            r == self.spec_ast(),
    {
        match self {
            ParseResult::Success { ast, .. } => ast,
            ParseResult::Recovered { ast, .. } => ast,
        }
    }

    /// Takes ownership of the AST, errors and source map if errors were
    /// encountered; `None` for a completely successful parse.
    pub fn into_recovered(self) -> (r: Option<(TAst, Vec<GraphQLParseError>, SourceMap<'src>)>)
        ensures
            r is Some <==> self is Recovered,
            r matches Some(t) ==> t.0 == self.spec_ast() && t.1@ == self.spec_errors() && t.2
                == self.spec_source_map(),
    {
        match self {
            ParseResult::Success { .. } => None,
            ParseResult::Recovered { ast, errors, source_map } => Some((ast, errors, source_map)),
        }
    }

    /// Takes ownership of the AST and source map only if parsing was
    /// completely successful.
    pub fn into_valid(self) -> (r: Option<(TAst, SourceMap<'src>)>)
        ensures
            r is Some <==> self is Success,
            r matches Some(t) ==> t.0 == self.spec_ast() && t.1 == self.spec_source_map(),
    {
        match self {
            ParseResult::Success { ast, source_map } => Some((ast, source_map)),
            ParseResult::Recovered { .. } => None,
        }
    }

    /// Takes ownership of the AST only if parsing was completely successful.
    pub fn into_valid_ast(self) -> (r: Option<TAst>)
        ensures
            r is Some <==> self is Success,
            r matches Some(a) ==> a == self.spec_ast(),
    {
        match self {
            ParseResult::Success { ast, .. } => Some(ast),
            ParseResult::Recovered { .. } => None,
        }
    }

    /// Creates a successful parse result with no errors.
    pub fn new_ok(ast: TAst, source_map: SourceMap<'src>) -> (r: ParseResult<'src, TAst>)
        ensures
            r == (ParseResult::Success { ast, source_map }),
    {
        ParseResult::Success { ast, source_map }
    }

    /// Creates a recovered parse result with both AST and errors.
    pub fn new_recovered(
        ast: TAst,
        errors: Vec<GraphQLParseError>,
        source_map: SourceMap<'src>,
    ) -> (r: ParseResult<'src, TAst>)
        requires
            errors.len() > 0,
        ensures
            r == (ParseResult::Recovered { ast, errors, source_map }),
    {
        ParseResult::Recovered { ast, errors, source_map }
    }

    /// Returns the recovered AST, errors and source map if errors were
    /// encountered; `None` for a completely successful parse.
    pub fn recovered(&self) -> (r: Option<(&TAst, &[GraphQLParseError], &SourceMap<'src>)>)
        ensures
            r is Some <==> self is Recovered,
            r matches Some(t) ==> *t.0 == self.spec_ast() && t.1@ == self.spec_errors() && *t.2
                == self.spec_source_map(),
    {
        match self {
            ParseResult::Success { .. } => None,
            ParseResult::Recovered { ast, errors, source_map } => Some(
                (ast, errors.as_slice(), source_map),
            ),
        }
    }

    /// Returns the source map for resolving byte offsets.
    pub fn source_map(&self) -> (r: &SourceMap<'src>)
        ensures
            *r == self.spec_source_map(),
    {
        match self {
            ParseResult::Success { source_map, .. } => source_map,
            ParseResult::Recovered { source_map, .. } => source_map,
        }
    }

    /// Returns the AST and source map only if parsing was completely
    /// successful.
    pub fn valid(&self) -> (r: Option<(&TAst, &SourceMap<'src>)>)
        ensures
            r is Some <==> self is Success,
            r matches Some(t) ==> *t.0 == self.spec_ast() && *t.1 == self.spec_source_map(),
    {
        match self {
            ParseResult::Success { ast, source_map } => Some((ast, source_map)),
            ParseResult::Recovered { .. } => None,
        }
    }

    /// Converts to a standard `Result`, treating recovered ASTs as errors.
    pub fn into_result(self) -> (r: Result<(TAst, SourceMap<'src>), Vec<GraphQLParseError>>)
        ensures
            r is Ok <==> self is Success,
            r matches Ok(t) ==> t.0 == self.spec_ast() && t.1 == self.spec_source_map(),
            r matches Err(es) ==> es@ == self.spec_errors(),
    {
        match self {
            ParseResult::Success { ast, source_map } => Ok((ast, source_map)),
            ParseResult::Recovered { errors, .. } => Err(errors),
        }
    }
}

/// A result has errors exactly when it is not valid, and a valid result
/// hands back the same AST as an unconditional extraction.
pub proof fn lemma_errors_iff_not_valid<'src, TAst>(r: ParseResult<'src, TAst>)
    requires
        r.wf(),
    ensures
        (r.spec_errors().len() > 0) <==> !(r is Success),
        r is Success ==> r.spec_errors().len() == 0,
{
}

/// Whether a definition `d` is kept when selecting executable definitions
/// (`executable`) or type-system ones (otherwise).
pub open spec fn keeps(executable: bool, d: ast::Definition) -> bool {
    if executable {
        is_executable_definition(d)
    } else {
        is_type_system_definition(d)
    }
}

/// The selection predicate for executable (`executable`) or type-system
/// definitions.
pub open spec fn keep_kind(executable: bool) -> spec_fn(ast::Definition) -> bool {
    |d: ast::Definition| keeps(executable, d)
}

/// References to the definitions of `defs` of the selected kind, in order.
fn filter_definitions<'a>(defs: &'a Vec<ast::Definition>, executable: bool) -> (r: Vec<&'a ast::Definition>)
    ensures
        r@.len() == defs@.filter(keep_kind(executable)).len(),
        forall|k: int| 0 <= k < r@.len() ==> *r@[k] == defs@.filter(keep_kind(executable))[k],
{
    let ghost keep = keep_kind(executable);
    let mut r: Vec<&'a ast::Definition> = Vec::new();
    let mut i: usize = 0;
    while i < defs.len()
        invariant
            i <= defs@.len(),
            keep == keep_kind(executable),
            r@.len() == defs@.take(i as int).filter(keep).len(),
            forall|k: int| 0 <= k < r@.len() ==> *r@[k] == defs@.take(i as int).filter(keep)[k],
        decreases defs@.len() - i,
    {
        let d = &defs[i];
        let take = match d {
            ast::Definition::OperationDefinition(_) | ast::Definition::FragmentDefinition(_) => executable,
            _ => !executable,
        };
        proof {
            reveal(Seq::filter);
            assert(defs@.take(i + 1).drop_last() =~= defs@.take(i as int));
            assert(defs@.take(i + 1).last() == defs@[i as int]);
            assert(take == keeps(executable, defs@[i as int]));
        }
        if take {
            r.push(d);
        }
        i = i + 1;
    }
    assert(defs@.take(defs@.len() as int) =~= defs@);
    r
}

impl<'src> ParseResult<'src, ast::Document> {
    /// The definitions of the parsed document.
    pub fn definitions(&self) -> (r: &[ast::Definition])
        ensures
            r@ == self.spec_ast().definitions@,
    {
        self.ast().definitions.as_slice()
    }

    /// The operations and fragments of the parsed document, in order.
    pub fn executable_definitions(&self) -> (r: Vec<&ast::Definition>)
        ensures
            r@.len() == self.spec_ast().definitions@.filter(keep_kind(true)).len(),
            forall|k: int|
                0 <= k < r@.len() ==> *r@[k] == self.spec_ast().definitions@.filter(keep_kind(true))[k],
    {
        filter_definitions(&self.ast().definitions, true)
    }

    /// The type-system definitions and extensions of the parsed document,
    /// in order.
    pub fn schema_definitions(&self) -> (r: Vec<&ast::Definition>)
        ensures
            r@.len() == self.spec_ast().definitions@.filter(keep_kind(false)).len(),
            forall|k: int|
                0 <= k < r@.len() ==> *r@[k] == self.spec_ast().definitions@.filter(keep_kind(false))[k],
    {
        filter_definitions(&self.ast().definitions, false)
    }

    /// The span of the parsed document.
    pub fn span(&self) -> (r: &GraphQLSourceSpan)
        ensures
            *r == self.spec_ast().span,
    {
        &self.ast().span
    }

    /// The source details of the parsed document, when syntax was retained.
    pub fn syntax(&self) -> (r: &Option<Box<ast::DocumentSyntax>>)
        ensures
            *r == self.spec_ast().syntax,
    {
        &self.ast().syntax
    }

    /// The trivia after the last definition of the parsed document, when
    /// syntax was retained.
    pub fn trailing_trivia(&self) -> (r: Option<&Vec<GraphQLTriviaToken>>)
        ensures
            r == match self.spec_ast().syntax {
                Some(sx) => Some(&sx.trailing_trivia),
                None => None,
            },
    {
        self.ast().trailing_trivia()
    }
}

} // verus!
