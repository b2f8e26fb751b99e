pub mod errors;
pub mod executable;
pub mod lexer;
pub mod parser;
pub mod printing;
pub mod schema_coordinates;
pub mod span;
pub mod syntax;
pub mod text;

pub use errors::Error;
pub use executable::ExecutableDocument;
pub use span::Span;

use vstd::prelude::*;
use vstd::utf8::encode_utf8;

use errors::converted;
use executable::node_display::displayable;
use executable::contents::ExecutableContents;
use lexer::tokens::{lex_steps, lexes_without_panic};
use lexer::{lexed, LexicalError, Spanned, Token};
use parser::ParseError;
use parser::executable::{parse_definitions, reports, write_definitions};

verus! {

/// Parses an executable document.  Identifiers are 32 bits wide, and each
/// token of the input interns at most two strings, so the input holds fewer
/// tokens than half the identifiers.
pub fn parse_executable_document(input: &str) -> (r: Result<ExecutableDocument, Error>)
    requires
        encode_utf8(input@).len() <= usize::MAX,
        2 * lex_steps(input@, 0).len() < u32::MAX,
        lexes_without_panic(input@),
    ensures
        exists|items: Seq<Spanned<Token, usize, LexicalError>>|
            #[trigger] lexed(input@, items) && match parse_definitions(items, 0, None, Seq::empty()) {
                Err(failure) => exists|e: ParseError<usize, Token, LexicalError>|
                    #[trigger] reports(items, failure, e) && (r matches Err(reported) && converted(e, reported)),
                Ok(defs) => (r matches Ok(document) && document.wf() && document@
                    == write_definitions(ExecutableContents::empty(), input@, defs) && displayable(
                    document@,
                )),
            },
{
    let tokens = lexer::tokenize(input);
    proof {
        lexer::token_lexer::lemma_encode_len_at_least(input@);
        lexer::lemma_lex_steps_len(input@, 0);
    }
    let ghost items = tokens@;
    let mut ast = executable::ExecutableAstWriter::new();
    match parser::ExecutableDocumentParser::new().parse(input, &mut ast, tokens) {
        Ok(_) => {
            let document = ast.finish();
            proof {
                assert(lexed(input@, items));
                parser::executable::lemma_parsed_count(items, 0, None, Seq::empty());
                if let Ok(defs) = parse_definitions(items, 0, None, Seq::empty()) {
                    executable::display_laws::law_parsed_documents_display(input@, defs);
                }
            }
            Ok(document)
        },
        Err(error) => {
            let ghost e = error;
            let reported = Error::from_parse_error(error);
            proof {
                assert(lexed(input@, items));
                assert(reports(items, parse_definitions(items, 0, None, Seq::empty())->Err_0, e));
            }
            Err(reported)
        },
    }
}

} // verus!
