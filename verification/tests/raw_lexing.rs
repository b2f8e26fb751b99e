use cynic_parser::syntax::Lang;
use cynic_parser::syntax::lexer::{lex_all, Token};
use cynic_parser::syntax::SyntaxKind;

fn lex(input: &str) -> Vec<Token> {
    lex_all(input).into_iter().map(|result| result.unwrap()).collect()
}

#[test]
fn can_lex_ints() {
    assert_eq!(lex("1"), vec![Token::Number]);
    assert_eq!(lex("-1"), vec![Token::NegativeSign, Token::Number]);
    assert_eq!(lex("-0"), vec![Token::NegativeSign, Token::Number]);
    assert_eq!(lex("100"), vec![Token::Number]);
    assert_eq!(lex("-100"), vec![Token::NegativeSign, Token::Number]);
}

#[test]
fn can_lex_variables() {
    let res = lex(r#"$name: String! = "hello""#);
    assert_eq!(
        res,
        vec![
            Token::Dollar,
            Token::Name,
            Token::Colon,
            Token::Whitespace,
            Token::Name,
            Token::Bang,
            Token::Whitespace,
            Token::Equals,
            Token::Whitespace,
            Token::Quote,
            Token::Name,
            Token::Quote
        ]
    );
}

#[test]
fn lexes_a_small_query() {
    let tokens = lex("query {\n  ... on Issue { id }\r\n}");
    assert_eq!(
        tokens,
        vec![
            Token::Name,
            Token::Whitespace,
            Token::OpenCurly,
            Token::LineTerminator,
            Token::Whitespace,
            Token::Spread,
            Token::Whitespace,
            Token::Name,
            Token::Whitespace,
            Token::Name,
            Token::Whitespace,
            Token::OpenCurly,
            Token::Whitespace,
            Token::Name,
            Token::Whitespace,
            Token::CloseCurly,
            Token::LineTerminator,
            Token::CloseCurly,
        ]
    );
}

#[test]
fn exponent_wins_over_name_of_same_length() {
    assert_eq!(lex("1.5e10"), vec![Token::Number, Token::FractionalPart, Token::ExponentPart]);
    assert_eq!(lex("e5x"), vec![Token::Name]);
    assert_eq!(lex("E+3"), vec![Token::ExponentPart]);
}

#[test]
fn escapes_and_block_quotes() {
    assert_eq!(
        lex(r#""""\n\u00aF/"#),
        vec![Token::BlockQuote, Token::EscapedCharacter, Token::EscapedUnicode]
    );
}

#[test]
fn unknown_characters_are_errors() {
    assert_eq!(lex_all("%a"), vec![Err(()), Ok(Token::Name)]);
    assert_eq!(lex_all("\r"), vec![Err(())]);
}

#[test]
fn raw_lexer_slices() {
    let mut lexer = Token::lexer("abc  , #");
    assert_eq!(lexer.next(), Some(Ok(Token::Name)));
    assert_eq!(lexer.slice(), "abc");
    assert_eq!(lexer.next(), Some(Ok(Token::Whitespace)));
    assert_eq!(lexer.slice(), "  ");
    assert_eq!(lexer.next(), Some(Ok(Token::Comma)));
    assert_eq!(lexer.next(), Some(Ok(Token::Whitespace)));
    assert_eq!(lexer.next(), Some(Ok(Token::Hash)));
    assert_eq!(lexer.next(), None);
}

#[test]
fn tokens_convert_to_syntax_kinds() {
    assert_eq!(SyntaxKind::from(Token::Name), SyntaxKind::NAME);
    assert_eq!(SyntaxKind::from(Token::OpenCurly), SyntaxKind::OPEN_CURLY);
    assert_eq!(SyntaxKind::from(Token::LineTerminator), SyntaxKind::LINE_TERMINATOR);
}

#[test]
fn syntax_kinds_are_numbered_one_to_one() {

    for raw in 0..=SyntaxKind::ROOT as u16 {
        assert_eq!(Lang::kind_to_raw(Lang::kind_from_raw(raw)), raw);
    }
    assert_eq!(Lang::kind_to_raw(SyntaxKind::COMMA), 0);
    assert_eq!(Lang::kind_from_raw(69), SyntaxKind::ROOT);
}
