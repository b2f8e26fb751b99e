use cynic_parser::lexer::{lexes_without_panic_exec, tokenize};
use cynic_parser::lexer::{LexicalError, Token};

fn assert_token(source: &str, kind: Token, length: usize) {
    let mut lexer = Token::lexer(source);
    assert_eq!(
        lexer.next(),
        Some(Ok(kind)),
        "Testing the lexing of string '{}'",
        source
    );
    assert_eq!(
        lexer.span(),
        0..length,
        "Testing the lexing of string '{}'",
        source
    );
}

fn assert_error(source: &str, length: usize) {
    let mut lexer = Token::lexer(source);
    assert_eq!(
        lexer.next(),
        Some(Err(())),
        "Testing lexing fails for string '{}'",
        source
    );
    assert_eq!(
        lexer.span(),
        0..length,
        "Testing the lexing of string '{}'",
        source
    );
}

fn ident(name: &str) -> Token {
    Token::Identifier(name.to_string())
}

#[test]
fn test_number_successes() {
    assert_token("4", Token::IntegerLiteral, 1);
    assert_token("4.123", Token::FloatLiteral, 5);
    assert_token("-4", Token::IntegerLiteral, 2);
    assert_token("9", Token::IntegerLiteral, 1);
    assert_token("0", Token::IntegerLiteral, 1);
    assert_token("-4.123", Token::FloatLiteral, 6);
    assert_token("0.123", Token::FloatLiteral, 5);
    assert_token("123e4", Token::FloatLiteral, 5);
    assert_token("123E4", Token::FloatLiteral, 5);
    assert_token("123e-4", Token::FloatLiteral, 6);
    assert_token("123e+4", Token::FloatLiteral, 6);
    assert_token("-1.123e4", Token::FloatLiteral, 8);
    assert_token("-1.123E4", Token::FloatLiteral, 8);
    assert_token("-1.123e-4", Token::FloatLiteral, 9);
    assert_token("-1.123e+4", Token::FloatLiteral, 9);
    assert_token("-1.123e4567", Token::FloatLiteral, 11);
    assert_token("-0", Token::IntegerLiteral, 2);
}

#[test]
fn test_number_failures() {
    assert_token("00", Token::ErrorNumberLiteralLeadingZero, 2);
    assert_token("01", Token::ErrorNumberLiteralLeadingZero, 2);
    assert_token("-01", Token::ErrorNumberLiteralLeadingZero, 3);
    assert_error("+1", 1);
    assert_token("01.23", Token::ErrorNumberLiteralLeadingZero, 5);
    assert_token("1.", Token::ErrorNumberLiteralTrailingInvalid, 2);
    assert_token("1e", Token::ErrorNumberLiteralTrailingInvalid, 2);
    assert_token("1.e1", Token::ErrorNumberLiteralTrailingInvalid, 2);
    assert_token("1.A", Token::ErrorNumberLiteralTrailingInvalid, 2);
    assert_error("-A", 1);
    assert_token("1.0e", Token::ErrorNumberLiteralTrailingInvalid, 4);
    assert_token("1.0eA", Token::ErrorNumberLiteralTrailingInvalid, 4);
    assert_token("1.2e3e", Token::ErrorNumberLiteralTrailingInvalid, 6);
    assert_token("1.2e3.4", Token::ErrorNumberLiteralTrailingInvalid, 6);
    assert_token("1.23.4", Token::ErrorNumberLiteralTrailingInvalid, 5);
    assert_token(".123", Token::ErrorFloatLiteralMissingZero, 4);

    // check that we don't consume trailing valid items
    assert_token("1.23.{}", Token::ErrorNumberLiteralTrailingInvalid, 5);
    assert_token("1.23. {}", Token::ErrorNumberLiteralTrailingInvalid, 5);
    assert_token("1.23. []", Token::ErrorNumberLiteralTrailingInvalid, 5);
    assert_token("1.23. foo", Token::ErrorNumberLiteralTrailingInvalid, 5);
    assert_token("1.23. $foo", Token::ErrorNumberLiteralTrailingInvalid, 5);
}

#[test]
fn test_lexing() {
    let input = "
           query EmptyQuery($id: ID!) {
             node(id: $id) {
               id @skip(if: false)
               ...E1
             }
           }
         ";
    let mut lexer = Token::lexer(input);

    assert_eq!(lexer.next(), Some(Ok(ident("query"))));
    assert_eq!(lexer.slice(), "query");

    assert_eq!(lexer.next(), Some(Ok(ident("EmptyQuery"))));
    assert_eq!(lexer.slice(), "EmptyQuery");

    assert_eq!(lexer.next(), Some(Ok(Token::OpenParen)));
    assert_eq!(lexer.slice(), "(");

    assert_eq!(lexer.next(), Some(Ok(Token::Dollar)));
    assert_eq!(lexer.slice(), "$");

    assert_eq!(lexer.next(), Some(Ok(ident("id"))));
    assert_eq!(lexer.slice(), "id");

    assert_eq!(lexer.next(), Some(Ok(Token::Colon)));
    assert_eq!(lexer.slice(), ":");

    assert_eq!(lexer.next(), Some(Ok(ident("ID"))));
    assert_eq!(lexer.slice(), "ID");

    assert_eq!(lexer.next(), Some(Ok(Token::Exclamation)));
    assert_eq!(lexer.slice(), "!");

    assert_eq!(lexer.next(), Some(Ok(Token::CloseParen)));
    assert_eq!(lexer.slice(), ")");

    assert_eq!(lexer.next(), Some(Ok(Token::OpenBrace)));
    assert_eq!(lexer.slice(), "{");

    assert_eq!(lexer.next(), Some(Ok(ident("node"))));
    assert_eq!(lexer.slice(), "node");

    assert_eq!(lexer.next(), Some(Ok(Token::OpenParen)));
    assert_eq!(lexer.slice(), "(");

    assert_eq!(lexer.next(), Some(Ok(ident("id"))));
    assert_eq!(lexer.slice(), "id");

    assert_eq!(lexer.next(), Some(Ok(Token::Colon)));
    assert_eq!(lexer.slice(), ":");

    assert_eq!(lexer.next(), Some(Ok(Token::Dollar)));
    assert_eq!(lexer.slice(), "$");

    assert_eq!(lexer.next(), Some(Ok(ident("id"))));
    assert_eq!(lexer.slice(), "id");

    assert_eq!(lexer.next(), Some(Ok(Token::CloseParen)));
    assert_eq!(lexer.slice(), ")");

    assert_eq!(lexer.next(), Some(Ok(Token::OpenBrace)));
    assert_eq!(lexer.slice(), "{");

    assert_eq!(lexer.next(), Some(Ok(ident("id"))));
    assert_eq!(lexer.slice(), "id");

    assert_eq!(lexer.next(), Some(Ok(Token::At)));
    assert_eq!(lexer.slice(), "@");

    assert_eq!(lexer.next(), Some(Ok(ident("skip"))));
    assert_eq!(lexer.slice(), "skip");

    assert_eq!(lexer.next(), Some(Ok(Token::OpenParen)));
    assert_eq!(lexer.slice(), "(");

    assert_eq!(lexer.next(), Some(Ok(ident("if"))));
    assert_eq!(lexer.slice(), "if");

    assert_eq!(lexer.next(), Some(Ok(Token::Colon)));
    assert_eq!(lexer.slice(), ":");

    assert_eq!(lexer.next(), Some(Ok(ident("false"))));
    assert_eq!(lexer.slice(), "false");

    assert_eq!(lexer.next(), Some(Ok(Token::CloseParen)));
    assert_eq!(lexer.slice(), ")");

    assert_eq!(lexer.next(), Some(Ok(Token::Spread)));
    assert_eq!(lexer.slice(), "...");

    assert_eq!(lexer.next(), Some(Ok(ident("E1"))));
    assert_eq!(lexer.slice(), "E1");

    assert_eq!(lexer.next(), Some(Ok(Token::CloseBrace)));
    assert_eq!(lexer.slice(), "}");

    assert_eq!(lexer.next(), Some(Ok(Token::CloseBrace)));
    assert_eq!(lexer.slice(), "}");


    assert_eq!(lexer.next(), None);
}

#[test]
fn test_string_lexing() {
    let input = r#"
             "test"
             "escaped \" quote"
             "unterminated
             "
         "#;
    let mut lexer = Token::lexer(input);

    assert_eq!(lexer.next(), Some(Ok(Token::StringLiteral)));
    assert_eq!(lexer.slice(), "\"test\"");

    assert_eq!(lexer.next(), Some(Ok(Token::StringLiteral)));
    assert_eq!(lexer.slice(), r#""escaped \" quote""#);

    assert_eq!(lexer.next(), Some(Err(())));
    assert_eq!(
        lexer.extras.error_token,
        Some(Token::ErrorUnterminatedString)
    );
    assert_eq!(lexer.slice(), "\"unterminated");
}

#[test]
fn test_invalid_character_lexing() {
    let input = r#"
             {
                 %%%
                 __typename
                 *
             }
         "#;
    let mut lexer = Token::lexer(input);

    assert_eq!(lexer.next(), Some(Ok(Token::OpenBrace)));
    assert_eq!(lexer.slice(), "{");

    assert_eq!(lexer.next(), Some(Err(())));
    assert_eq!(lexer.slice(), "%");

    assert_eq!(lexer.next(), Some(Err(())));
    assert_eq!(lexer.slice(), "%");

    assert_eq!(lexer.next(), Some(Err(())));
    assert_eq!(lexer.slice(), "%");

    assert_eq!(lexer.next(), Some(Ok(ident("__typename"))));
    assert_eq!(lexer.slice(), "__typename");

    assert_eq!(lexer.next(), Some(Err(())));
    assert_eq!(lexer.slice(), "*");

    assert_eq!(lexer.next(), Some(Ok(Token::CloseBrace)));
    assert_eq!(lexer.slice(), "}");

    assert_eq!(lexer.next(), None);
}

#[test]
fn test_block_string_lexing() {
    let input = r#"
             # escaped
             """tes\"""t"""
             # empty
             """"""
             # 2 quotes in a string
             """"" """
             """
                 multi-
                 line
             """
             """unterminated
         "#;
    let mut lexer = Token::lexer(input);

    assert_eq!(lexer.next(), Some(Ok(Token::BlockStringLiteral)));
    assert_eq!(lexer.slice(), r#""""tes\"""t""""#);

    assert_eq!(lexer.next(), Some(Ok(Token::BlockStringLiteral)));
    assert_eq!(lexer.slice(), r#""""""""#);

    assert_eq!(lexer.next(), Some(Ok(Token::BlockStringLiteral)));
    assert_eq!(lexer.slice(), r#"""""" """"#);

    assert_eq!(lexer.next(), Some(Ok(Token::BlockStringLiteral)));
    assert_eq!(
        lexer.slice(),
        r#""""
                 multi-
                 line
             """"#
    );

    assert_eq!(lexer.next(), Some(Err(())));
    assert_eq!(
        lexer.extras.error_token,
        Some(Token::ErrorUnterminatedBlockString)
    );
    // Unterminated string just consumes the starting quotes
    assert_eq!(lexer.slice(), r#"""""#);
}

#[test]
fn test_bom_lexing() {
    let input = "\u{feff}";

    let mut lexer = Token::lexer(input);

    assert_eq!(lexer.next(), None);
}

#[test]
fn spans_count_bytes_of_multibyte_characters() {
    let mut lexer = Token::lexer("\"é\" x");
    assert_eq!(lexer.next(), Some(Ok(Token::StringLiteral)));
    assert_eq!(lexer.span(), 0..4);
    assert_eq!(lexer.next(), Some(Ok(ident("x"))));
    assert_eq!(lexer.span(), 5..6);
}

#[test]
fn unsupported_string_character_is_recorded() {
    let mut lexer = Token::lexer("\"a\u{1}b\"");
    assert_eq!(lexer.next(), Some(Err(())));
    assert_eq!(
        lexer.extras.error_token,
        Some(Token::ErrorUnsupportedStringCharacter)
    );
    assert_eq!(lexer.span(), 0..1);
}

#[test]
fn periods_and_comments() {
    let mut lexer = Token::lexer(".. . # a comment\n&|");
    assert_eq!(lexer.next(), Some(Ok(Token::PeriodPeriod)));
    assert_eq!(lexer.next(), Some(Ok(Token::Period)));
    assert_eq!(lexer.next(), Some(Ok(Token::Ampersand)));
    assert_eq!(lexer.next(), Some(Ok(Token::Pipe)));
    assert_eq!(lexer.next(), None);
}

#[test]
fn tokenize_spans_and_errors() {
    let items = tokenize("a %\n\"s\"");
    assert_eq!(
        items,
        vec![
            Ok((0, ident("a"), 1)),
            Err(LexicalError::InvalidToken),
            Ok((4, Token::StringLiteral, 7)),
        ]
    );
}

#[test]
fn lexer_hands_out_spanned_tokens() {
    let mut lexer = cynic_parser::lexer::Lexer::new("{ x }");
    assert_eq!(lexer.next(), Some(Ok((0, Token::OpenBrace, 1))));
    assert_eq!(lexer.next(), Some(Ok((2, ident("x"), 3))));
    assert_eq!(lexer.next(), Some(Ok((4, Token::CloseBrace, 5))));
    assert_eq!(lexer.next(), None);
}

#[test]
fn block_strings_with_control_characters_cannot_be_lexed() {
    assert!(lexes_without_panic_exec("query { a(b: \"\"\"text\"\"\") }"));
    assert!(lexes_without_panic_exec("\"a\u{1}b\""));
    assert!(!lexes_without_panic_exec("\"\"\"a\u{1}b\"\"\""));
}
