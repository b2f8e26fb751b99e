//! The parser of executable documents:
//!
//! ```text
//! ExecutableDocument       = DefinitionAndDescription+
//! DefinitionAndDescription = StringValue? ExecutableDefinition
//! ExecutableDefinition     = OperationDefinition | FragmentDefinition
//! OperationDefinition      = "query"
//! FragmentDefinition       = "$"
//! StringValue              = StringLiteral | BlockStringLiteral
//! ```
//!
//! The keyword `query` is an identifier token that reads `query`.
use vstd::prelude::*;

use super::ParseError;
use crate::executable::contents::{interned, ExecutableContents};
use crate::executable::ids::{
    DirectiveId, ExecutableDefinitionId, SelectionId, StringId, VariableDefinitionId,
};
use crate::executable::storage::{FragmentDefinitionRecord, OperationDefinitionRecord, OperationType};
use crate::executable::ExecutableAstWriter;
use crate::executable::ids::IdRange;
use crate::lexer::token_lexer::{chars_within, text_between};
use crate::lexer::{LexicalError, Spanned, Token};
use crate::span::Span;
use vstd::utf8::encode_utf8;

verus! {

#[derive(Clone, Copy, Debug, PartialEq, Eq, Structural)]
pub enum DefinitionKind {
    Operation,
    Fragment,
}

/// What the grammar makes of a token.
#[derive(Clone, Copy, Debug, PartialEq, Eq, Structural)]
pub enum Terminal {
    Description,
    Definition(DefinitionKind),
    Other,
}

pub open spec fn terminal_of(token: Token) -> Terminal {
    match token {
        Token::StringLiteral => Terminal::Description,
        Token::BlockStringLiteral => Terminal::Description,
        Token::Query => Terminal::Definition(DefinitionKind::Operation),
        Token::Identifier(name) => if name@ == "query"@ {
            Terminal::Definition(DefinitionKind::Operation)
        } else {
            Terminal::Other
        },
        Token::Dollar => Terminal::Definition(DefinitionKind::Fragment),
        _ => Terminal::Other,
    }
}

pub fn terminal(token: &Token) -> (r: Terminal)
    ensures
        r == terminal_of(*token),
{
    match token {
        Token::StringLiteral => Terminal::Description,
        Token::BlockStringLiteral => Terminal::Description,
        Token::Query => Terminal::Definition(DefinitionKind::Operation),
        Token::Identifier(name) => {
            let keyword = "query".to_owned();
            if *name == keyword {
                Terminal::Definition(DefinitionKind::Operation)
            } else {
                Terminal::Other
            }
        },
        Token::Dollar => Terminal::Definition(DefinitionKind::Fragment),
        _ => Terminal::Other,
    }
}

/// A definition as the grammar sees it: its kind, the span of its token and
/// the span of its description, if it has one.
#[derive(Clone, Copy, Debug, PartialEq, Eq, Structural)]
pub struct DefinitionSyntax {
    pub kind: DefinitionKind,
    pub span: Span,
    pub description: Option<Span>,
}

/// Where parsing fails.
pub enum ParseFailure {
    /// The input ends where a definition (or, with no description pending
    /// and nothing parsed yet, a description) should follow.
    Eof { location: usize, after_description: bool },
    /// The token at `index` may not stand where it stands.
    Token { index: int, after_description: bool },
    /// The item at `index` is an error of the lexer.
    Lexical { index: int },
}

/// The end of the last item, 0 where there is none.
pub open spec fn last_end(items: Seq<Spanned<Token, usize, LexicalError>>) -> usize {
    if items.len() == 0 {
        0
    } else {
        match items.last() {
            Ok((_, _, end)) => end,
            Err(_) => 0,
        }
    }
}

/// Parses `items` from position `i`, with the description `pending` read
/// and the definitions `defs` parsed before.
pub open spec fn parse_definitions(
    items: Seq<Spanned<Token, usize, LexicalError>>,
    i: int,
    pending: Option<Span>,
    defs: Seq<DefinitionSyntax>,
) -> Result<Seq<DefinitionSyntax>, ParseFailure>
    decreases items.len() - i,
{
    if i < 0 || i >= items.len() {
        if pending is Some {
            Err(ParseFailure::Eof { location: last_end(items), after_description: true })
        } else if defs.len() == 0 {
            Err(ParseFailure::Eof { location: last_end(items), after_description: false })
        } else {
            Ok(defs)
        }
    } else {
        match items[i] {
            Err(_) => Err(ParseFailure::Lexical { index: i }),
            Ok((start, token, end)) => match terminal_of(token) {
                Terminal::Description => if pending is Some {
                    Err(ParseFailure::Token { index: i, after_description: true })
                } else {
                    parse_definitions(items, i + 1, Some(Span { start, end }), defs)
                },
                Terminal::Definition(kind) => parse_definitions(
                    items,
                    i + 1,
                    None,
                    defs.push(DefinitionSyntax { kind, span: Span { start, end }, description: pending }),
                ),
                Terminal::Other => Err(
                    ParseFailure::Token { index: i, after_description: pending is Some },
                ),
            },
        }
    }
}

/// Parsing gives at most one definition for each token still to read.
pub proof fn lemma_parsed_count(
    items: Seq<Spanned<Token, usize, LexicalError>>,
    i: int,
    pending: Option<Span>,
    defs: Seq<DefinitionSyntax>,
)
    requires
        0 <= i <= items.len(),
    ensures
        parse_definitions(items, i, pending, defs) matches Ok(out) ==> out.len() <= defs.len()
            + items.len() - i,
    decreases items.len() - i,
{
    if i < items.len() {
        match items[i] {
            Err(_) => {},
            Ok((start, token, end)) => match terminal_of(token) {
                Terminal::Description => lemma_parsed_count(items, i + 1, Some(Span { start, end }), defs),
                Terminal::Definition(kind) => lemma_parsed_count(
                    items,
                    i + 1,
                    None,
                    defs.push(DefinitionSyntax { kind, span: Span { start, end }, description: pending }),
                ),
                Terminal::Other => {},
            },
        }
    }
}

/// The terminals that may come next: after a description only a definition,
/// elsewhere a description or a definition.
pub open spec fn expected_terminals(after_description: bool) -> Seq<Seq<char>> {
    if after_description {
        seq!["\"$\""@, "query"@]
    } else {
        seq!["\"$\""@, "BlockStringLiteral"@, "StringLiteral"@, "query"@]
    }
}

fn expected_names(after_description: bool) -> (names: Vec<String>)
    ensures
        names@.map_values(|s: String| s@) == expected_terminals(after_description),
{
    let mut names: Vec<String> = Vec::new();
    names.push("\"$\"".to_owned());
    if !after_description {
        names.push("BlockStringLiteral".to_owned());
        names.push("StringLiteral".to_owned());
    }
    names.push("query".to_owned());
    proof {
        assert(names@.map_values(|s: String| s@) =~= expected_terminals(after_description));
    }
    names
}

/// How a parse failure is reported.
pub open spec fn reports(
    items: Seq<Spanned<Token, usize, LexicalError>>,
    failure: ParseFailure,
    error: ParseError<usize, Token, LexicalError>,
) -> bool {
    match failure {
        ParseFailure::Eof { location, after_description } => {
            &&& error matches ParseError::UnrecognizedEof { location: l, expected }
            &&& l == location
            &&& expected@.map_values(|s: String| s@) == expected_terminals(after_description)
        },
        ParseFailure::Token { index, after_description } => {
            &&& error matches ParseError::UnrecognizedToken { token, expected }
            &&& items[index] == Ok::<(usize, Token, usize), LexicalError>(token)
            &&& expected@.map_values(|s: String| s@) == expected_terminals(after_description)
        },
        ParseFailure::Lexical { index } => {
            &&& error matches ParseError::User { error: e }
            &&& items[index] == Err::<(usize, Token, usize), LexicalError>(e)
        },
    }
}

/// The empty range of identifiers.
pub open spec fn no_ids<I>(first: I) -> IdRange<I> {
    IdRange { start: first, end: first }
}

/// The operation that the keyword at `span` stands for.
pub open spec fn operation_record(span: Span) -> OperationDefinitionRecord {
    OperationDefinitionRecord {
        operation_type: OperationType::Query,
        operation_type_span: Some(span),
        name: None,
        name_span: None,
        variable_definitions: no_ids(VariableDefinitionId::at(0)),
        directives: no_ids(DirectiveId::at(0)),
        selection_set: no_ids(SelectionId::at(0)),
        selection_set_span: span,
    }
}

/// The fragment that the token at `span` stands for, named by the string `unnamed`.
pub open spec fn fragment_record(span: Span, unnamed: StringId) -> FragmentDefinitionRecord {
    FragmentDefinitionRecord {
        name: unnamed,
        name_span: span,
        type_condition: unnamed,
        type_condition_span: span,
        directives: no_ids(DirectiveId::at(0)),
        selection_set: no_ids(SelectionId::at(0)),
        selection_set_span: span,
    }
}

/// The text of a description.
pub open spec fn description_text(source: Seq<char>, span: Span) -> Seq<char> {
    chars_within(source, span.start as int, span.end as int, source.len() as int)
}

/// The document after its description is interned.
pub open spec fn with_description(contents: ExecutableContents, source: Seq<char>, def: DefinitionSyntax) -> ExecutableContents {
    match def.description {
        Some(span) => contents.with_string(description_text(source, span)),
        None => contents,
    }
}

/// The document after one definition is written.
pub open spec fn write_definition(contents: ExecutableContents, source: Seq<char>, def: DefinitionSyntax) -> ExecutableContents {
    let described = with_description(contents, source, def);
    match def.kind {
        DefinitionKind::Operation => described.with_operation(operation_record(def.span)),
        DefinitionKind::Fragment => {
            let named = described.with_string(Seq::empty());
            named.with_fragment(
                fragment_record(def.span, StringId::at(interned(described.strings, Seq::empty()).1)),
            )
        },
    }
}

/// The document after the definitions are written, in order.
pub open spec fn write_definitions(contents: ExecutableContents, source: Seq<char>, defs: Seq<DefinitionSyntax>) -> ExecutableContents
    decreases defs.len(),
{
    if defs.len() == 0 {
        contents
    } else {
        write_definition(write_definitions(contents, source, defs.drop_last()), source, defs.last())
    }
}

/// A parsed definition: its identifier and that of its description.
#[derive(Clone, Copy, Debug, PartialEq, Eq)]
pub struct ParsedDefinition {
    pub id: ExecutableDefinitionId,
    pub description: Option<StringId>,
}

pub struct ExecutableDocumentParser {
    _priv: (),
}

impl ExecutableDocumentParser {
    pub fn new() -> (parser: ExecutableDocumentParser) {
        ExecutableDocumentParser { _priv: () }
    }

    /// Parses the token stream `tokens` of `input`, and writes what it
    /// defines into `ast`: each description as an interned string, each
    /// `query` as an operation, each `$` as a fragment.  On an error `ast`
    /// stays as it was.
    pub fn parse(
        &self,
        input: &str,
        ast: &mut ExecutableAstWriter,
        tokens: Vec<Spanned<Token, usize, LexicalError>>,
    ) -> (r: Result<Vec<ParsedDefinition>, ParseError<usize, Token, LexicalError>>)
        requires
            old(ast).wf(),
            encode_utf8(input@).len() <= usize::MAX,
            old(ast)@.definitions.len() + tokens.len() < u32::MAX,
            old(ast)@.operations.len() + tokens.len() < u32::MAX,
            old(ast)@.fragments.len() + tokens.len() < u32::MAX,
            old(ast)@.strings.len() + 2 * tokens.len() < u32::MAX,
        ensures
            final(ast).wf(),
            match parse_definitions(tokens@, 0, None, Seq::empty()) {
                Err(failure) => {
                    &&& r matches Err(e)
                    &&& reports(tokens@, failure, e)
                    &&& final(ast)@ == old(ast)@
                    &&& final(ast).directive_cursor() == old(ast).directive_cursor()
                    &&& final(ast).variable_cursor() == old(ast).variable_cursor()
                },
                Ok(defs) => {
                    &&& r matches Ok(parsed)
                    &&& parsed.len() == defs.len()
                    &&& final(ast)@ == write_definitions(old(ast)@, input@, defs)
                    &&& forall|k: int| 0 <= k < parsed.len() ==> (#[trigger] parsed[k]).id
                        == ExecutableDefinitionId::at((old(ast)@.definitions.len() + k) as nat)
                    &&& forall|k: int| 0 <= k < parsed.len() ==> match (#[trigger] parsed[k]).description {
                        Some(id) => defs[k].description matches Some(span) && id == StringId::at(
                            interned(write_definitions(old(ast)@, input@, defs.take(k)).strings, description_text(input@, span)).1,
                        ),
                        None => defs[k].description is None,
                    }
                },
            },
    {
        let ghost items = tokens@;
        let mut pending: Option<Span> = None;
        let mut defs: Vec<DefinitionSyntax> = Vec::new();
        let mut last: usize = 0;
        for item in it: tokens.into_iter()
            invariant
                it.seq() == items,
                *ast == *old(ast),
                ast.wf(),
                defs.len() <= it.index(),
                last == last_end(items.take(it.index() as int)),
                parse_definitions(items, 0, None, Seq::empty()) == parse_definitions(
                    items,
                    it.index() as int,
                    pending,
                    defs@,
                ),
        {
            let ghost i = it.index() as int;
            proof {
                assert(items[i] == item);
            }
            match item {
                Err(error) => {
                    return Err(ParseError::User { error });
                },
                Ok((start, token, end)) => {
                    match terminal(&token) {
                        Terminal::Description => {
                            if pending.is_some() {
                                let expected = expected_names(true);
                                return Err(ParseError::UnrecognizedToken { token: (start, token, end), expected });
                            }
                            pending = Some(Span { start, end });
                        },
                        Terminal::Definition(kind) => {
                            defs.push(DefinitionSyntax { kind, span: Span { start, end }, description: pending });
                            pending = None;
                        },
                        Terminal::Other => {
                            let expected = expected_names(pending.is_some());
                            return Err(ParseError::UnrecognizedToken { token: (start, token, end), expected });
                        },
                    }
                    proof {
                        assert(items.take(i + 1).last() == items[i]);
                    }
                    last = end;
                },
            }
        }
        proof {
            assert(items.take(items.len() as int) =~= items);
        }
        if pending.is_some() {
            return Err(ParseError::UnrecognizedEof { location: last, expected: expected_names(true) });
        }
        if defs.len() == 0 {
            return Err(ParseError::UnrecognizedEof { location: last, expected: expected_names(false) });
        }
        let parsed = write_all(input, ast, &defs);
        Ok(parsed)
    }
}

/// Writes the parsed definitions into `ast`, in order.
fn write_all(input: &str, ast: &mut ExecutableAstWriter, defs: &Vec<DefinitionSyntax>) -> (parsed: Vec<ParsedDefinition>)
    requires
        old(ast).wf(),
        encode_utf8(input@).len() <= usize::MAX,
        old(ast)@.definitions.len() + defs.len() < u32::MAX,
        old(ast)@.operations.len() + defs.len() < u32::MAX,
        old(ast)@.fragments.len() + defs.len() < u32::MAX,
        old(ast)@.strings.len() + 2 * defs.len() < u32::MAX,
    ensures
        final(ast).wf(),
        parsed.len() == defs.len(),
        final(ast)@ == write_definitions(old(ast)@, input@, defs@),
        forall|k: int| 0 <= k < parsed.len() ==> (#[trigger] parsed[k]).id
            == ExecutableDefinitionId::at((old(ast)@.definitions.len() + k) as nat),
        forall|k: int| 0 <= k < parsed.len() ==> match (#[trigger] parsed[k]).description {
            Some(id) => defs[k].description matches Some(span) && id == StringId::at(
                interned(write_definitions(old(ast)@, input@, defs@.take(k)).strings, description_text(input@, span)).1,
            ),
            None => defs[k].description is None,
        },
{
    let ghost start = old(ast)@;
    let mut parsed: Vec<ParsedDefinition> = Vec::new();
    let mut k: usize = 0;
    while k < defs.len()
        invariant
            ast.wf(),
            k <= defs.len(),
            parsed.len() == k,
            encode_utf8(input@).len() <= usize::MAX,
            ast@ == write_definitions(start, input@, defs@.take(k as int)),
            ast@.definitions.len() == start.definitions.len() + k,
            ast@.operations.len() <= start.operations.len() + k,
            ast@.fragments.len() <= start.fragments.len() + k,
            ast@.strings.len() <= start.strings.len() + 2 * k,
            start.definitions.len() + defs.len() < u32::MAX,
            start.operations.len() + defs.len() < u32::MAX,
            start.fragments.len() + defs.len() < u32::MAX,
            start.strings.len() + 2 * defs.len() < u32::MAX,
            forall|j: int| 0 <= j < k ==> (#[trigger] parsed[j]).id
                == ExecutableDefinitionId::at((start.definitions.len() + j) as nat),
            forall|j: int| 0 <= j < k ==> match (#[trigger] parsed[j]).description {
                Some(id) => defs[j].description matches Some(span) && id == StringId::at(
                    interned(write_definitions(start, input@, defs@.take(j)).strings, description_text(input@, span)).1,
                ),
                None => defs[j].description is None,
            },
        decreases defs.len() - k,
    {
        let def = defs[k];
        let ghost before = ast@;
        let description = match def.description {
            Some(span) => {
                let text = text_between(input, span.start, span.end);
                Some(ast.intern_owned_string(text))
            },
            None => None,
        };
        let ghost described = ast@;
        assert(described == with_description(before, input@, def));
        let id = match def.kind {
            DefinitionKind::Operation => {
                let record = OperationDefinitionRecord {
                    operation_type: OperationType::Query,
                    operation_type_span: Some(def.span),
                    name: None,
                    name_span: None,
                    variable_definitions: IdRange::new(VariableDefinitionId::new(0), VariableDefinitionId::new(0)),
                    directives: IdRange::new(DirectiveId::new(0), DirectiveId::new(0)),
                    selection_set: IdRange::new(SelectionId::new(0), SelectionId::new(0)),
                    selection_set_span: def.span,
                };
                assert(record == operation_record(def.span));
                ast.operation_definition(record)
            },
            DefinitionKind::Fragment => {
                proof {
                    reveal_strlit("");
                }
                let unnamed = ast.intern_string("");
                assert(""@ =~= Seq::<char>::empty());
                let record = FragmentDefinitionRecord {
                    name: unnamed,
                    name_span: def.span,
                    type_condition: unnamed,
                    type_condition_span: def.span,
                    directives: IdRange::new(DirectiveId::new(0), DirectiveId::new(0)),
                    selection_set: IdRange::new(SelectionId::new(0), SelectionId::new(0)),
                    selection_set_span: def.span,
                };
                assert(record == fragment_record(def.span, StringId::at(interned(described.strings, Seq::empty()).1)));
                ast.fragment_definition(record)
            },
        };
        proof {
            assert(ast@ == write_definition(before, input@, def));
            assert(defs@.take(k + 1).drop_last() =~= defs@.take(k as int));
            assert(defs@.take(k + 1).last() == def);
            assert forall|j: int| 0 <= j < k implies #[trigger] defs@.take(k + 1).take(j) == defs@.take(j) by {
                assert(defs@.take(k + 1).take(j) =~= defs@.take(j));
            }
        }
        parsed.push(ParsedDefinition { id, description });
        k = k + 1;
    }
    proof {
        assert(defs@.take(defs.len() as int) =~= defs@);
    }
    parsed
}

} // verus!
