use cynic_parser::executable::storage::OperationType;
use cynic_parser::executable::ExecutableAstWriter;
use cynic_parser::lexer::{tokenize, LexicalError, Token};
use cynic_parser::parser::{ExecutableDocumentParser, ParseError};
use cynic_parser::printing::{use_short_form, NodeDisplay, PrettyOptions, PrettyPrinter};
use cynic_parser::{parse_executable_document, Error};

fn parse_error(input: &str) -> Error {
    match parse_executable_document(input) {
        Ok(_) => panic!("expected {input:?} not to parse"),
        Err(error) => error,
    }
}

#[test]
fn parses_described_definitions() {
    let input = "\"first\" query $ \"\"\"third\"\"\" query";
    let mut ast = ExecutableAstWriter::new();
    let parsed = ExecutableDocumentParser::new()
        .parse(input, &mut ast, tokenize(input))
        .unwrap();
    assert_eq!(parsed.len(), 3);
    let document = ast.finish();
    let first = parsed[0].description.unwrap();
    assert_eq!(document.string(first), "\"first\"");
    assert_eq!(parsed[1].description, None);
    assert_eq!(document.string(parsed[2].description.unwrap()), "\"\"\"third\"\"\"");
    assert_eq!(document.operation_ids().len(), 2);
    assert_eq!(document.fragment_ids().len(), 1);
    let op = document.operation(document.operation_ids()[0]);
    assert_eq!(op.operation_type, OperationType::Query);
}

#[test]
fn empty_input_is_an_unexpected_end() {
    let mut ast = ExecutableAstWriter::new();
    let result = ExecutableDocumentParser::new().parse("", &mut ast, vec![]);
    assert_eq!(
        result,
        Err(ParseError::UnrecognizedEof {
            location: 0,
            expected: vec![
                "\"$\"".to_string(),
                "BlockStringLiteral".to_string(),
                "StringLiteral".to_string(),
                "query".to_string()
            ]
        })
    );
}

#[test]
fn description_must_be_followed_by_a_definition() {
    let error = parse_error("\"doc\"");
    assert_eq!(
        error,
        Error::UnrecognizedEof {
            location: 5,
            expected: vec!["\"$\"".to_string(), "query".to_string()]
        }
    );
}

#[test]
fn unexpected_token_is_described() {
    let error = parse_error("query {");
    assert_eq!(
        error,
        Error::UnrecognizedToken {
            token: (6, "open brace ('{')".to_string(), 7),
            expected: vec![
                "\"$\"".to_string(),
                "BlockStringLiteral".to_string(),
                "StringLiteral".to_string(),
                "query".to_string()
            ]
        }
    );
}

#[test]
fn lexical_errors_are_reported() {
    let error = parse_error("query %");
    assert_eq!(error, Error::Lexical(LexicalError::InvalidToken));
}

#[test]
fn a_single_anonymous_query_prints_in_short_form() {
    let document = parse_executable_document("query").ok().unwrap();
    assert!(use_short_form(&document));
    let document = parse_executable_document("query query").ok().unwrap();
    assert!(!use_short_form(&document));
}

#[test]
fn printer_options() {
    let document = parse_executable_document("query").ok().unwrap();
    let printer = PrettyPrinter::new_executable(&document);
    assert!(!printer.options.sort);
    let printer = printer.sorted();
    assert!(printer.options.sort);
    let display = NodeDisplay(1u8, PrettyOptions { sort: true });
    let other = display.with_node("x");
    assert_eq!(other.0, "x");
    assert!(other.1.sort);
    let mapper = display.mapper::<u32>();
    let mapped = mapper(7);
    assert_eq!(mapped.0, 7);
    assert!(mapped.1.sort);
}

#[test]
fn tokens_describe_themselves() {
    assert_eq!(Token::At.to_string(), "at ('@')");
    assert_eq!(Token::Identifier("x".to_string()).to_string(), "non-variable identifier (e.g. 'x' or 'Foo')");
}
