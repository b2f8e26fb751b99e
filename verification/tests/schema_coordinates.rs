use cynic_parser::lexer::LexicalError;
use cynic_parser::parser::AdditionalErrors;
use cynic_parser::schema_coordinates::{parse_schema_coordinate, SchemaCoordinate};
use cynic_parser::{Error, Span};

fn parse(input: &str) -> SchemaCoordinate {
    match parse_schema_coordinate(input) {
        Ok(coordinate) => coordinate,
        Err(error) => panic!("{input:?} did not parse: {error:?}"),
    }
}

fn parse_error(input: &str) -> Error {
    match parse_schema_coordinate(input) {
        Ok(coordinate) => panic!("{input:?} parsed as {coordinate:?}"),
        Err(error) => error,
    }
}

#[test]
fn parses_every_kind_of_coordinate() {
    assert_eq!(parse("Foo"), SchemaCoordinate::ty("Foo"));
    assert_eq!(parse("Foo.bar"), SchemaCoordinate::member("Foo", "bar"));
    assert_eq!(parse("Foo.bar(baz:)"), SchemaCoordinate::argument("Foo", "bar", "baz"));
    assert_eq!(parse("@skip"), SchemaCoordinate::directive("skip"));
    assert_eq!(parse("@skip(if:)"), SchemaCoordinate::directive_argument("skip", "if"));
}

#[test]
fn coordinates_print_as_they_parse() {
    for text in ["Foo", "Foo.bar", "Foo.bar(baz:)", "@skip", "@skip(if:)"] {
        assert_eq!(parse(text).to_string(), text);
    }
}

#[test]
fn names_carry_their_spans() {
    let coordinate = parse("Foo.bar");
    let member = coordinate.as_member().unwrap();
    assert_eq!(member.ty().span(), Span::new(0, 3));
    assert_eq!(member.span(), Span::new(4, 7));
    assert_eq!(member.name(), "bar");
    let coordinate = parse("@skip");
    let directive = coordinate.as_directive().unwrap();
    assert_eq!(directive.span(), Span::new(0, 5));
    assert_eq!(directive.name_span(), Span::new(1, 5));
    assert!(coordinate.as_ty().is_none());
}

#[test]
fn blank_input_is_empty() {
    assert_eq!(parse_error(""), Error::EmptySchemaCoordinate);
    assert_eq!(parse_error("  \n\t"), Error::EmptySchemaCoordinate);
}

#[test]
fn unexpected_tokens_and_ends() {
    assert_eq!(
        parse_error("Foo."),
        Error::UnrecognizedEof { location: 4, expected: vec!["Identifier".to_string()] }
    );
    assert_eq!(
        parse_error("Foo bar"),
        Error::UnrecognizedToken {
            token: (4, "identifier".to_string(), 7),
            expected: vec!["\".\"".to_string()]
        }
    );
    assert_eq!(parse_error("Foo.bar(%"), Error::Lexical(cynic_parser::lexer::LexicalError::InvalidToken));
    assert_eq!(
        parse_error("@skip(if:))"),
        Error::UnrecognizedToken { token: (10, "closing paren (')')".to_string(), 11), expected: vec![] }
    );
}

#[test]
fn directive_coordinates_compare_by_name() {
    let a = parse("@skip");
    let b = SchemaCoordinate::directive("skip");
    assert_eq!(a, b);
}

#[test]
fn additional_errors_are_reported() {
    assert_eq!(
        Error::from_additional(&AdditionalErrors::Lexical(LexicalError::InvalidToken)),
        Error::Lexical(LexicalError::InvalidToken)
    );
    assert_eq!(
        Error::from_additional(&AdditionalErrors::MalformedDirectiveLocation(1, "NOWHERE".to_string(), 8)),
        Error::MalformedDirectiveLocation(1, "NOWHERE".to_string(), 8)
    );
    assert_eq!(
        Error::from_additional(&AdditionalErrors::VariableInConstPosition(2, "x".to_string(), 4)),
        Error::MalformedDirectiveLocation(2, "x".to_string(), 4)
    );
}
