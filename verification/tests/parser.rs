use shellfront::parser::{Expr, Node, Parser};
use shellfront::result::{Error, Expected};
use shellfront::scanner::{char_items, CharItem, Scanner, Span, Token, TokenKind};
use shellfront::util::{BufferStream, VecSource};

type CharScanner = Scanner<VecSource<CharItem>>;

fn parser_for(text: &str) -> Parser<BufferStream<CharScanner>> {
    let scanner = Scanner::new(VecSource::new(char_items(text), CharItem::End));
    Parser::new(BufferStream::new(scanner))
}

fn token_parser(tokens: Vec<Result<Token, Error>>) -> Parser<VecSource<Result<Token, Error>>> {
    Parser::new(VecSource::new(tokens, Ok(Token::EOF)))
}

#[test]
fn balanced_parens_nest_a_command() {
    let mut parser = parser_for("(a)");
    let expr = parser.parse_command().unwrap();
    let expected = Expr::Command {
        parts: vec![Expr::Command { parts: vec![Expr::Literal { text: "a".to_string() }] }],
    };
    assert_eq!(expr, expected);
}

#[test]
fn unterminated_paren_expects_closing() {
    let mut parser = parser_for("(a");
    let err = parser.parse_command().unwrap_err();
    assert_eq!(
        err,
        Error::UnexpectedToken { actual: Token::EOF, expected: Expected::Tok(TokenKind::RParen) },
    );
}

#[test]
fn empty_input_parses_to_empty_file() {
    let mut parser = parser_for("");
    let node = parser.parse_file().unwrap();
    assert_eq!(node, Node::File { elements: vec![] });
}

#[test]
fn single_command_file() {
    let mut parser = parser_for("echo");
    let node = parser.parse_file().unwrap();
    let expected = Node::File {
        elements: vec![Expr::Command { parts: vec![Expr::Literal { text: "echo".to_string() }] }],
    };
    assert_eq!(node, expected);
}

#[test]
fn newline_separates_commands() {
    let mut parser = token_parser(vec![
        Ok(Token::Ident("a".to_string())),
        Ok(Token::NewLine),
        Ok(Token::Ident("b".to_string())),
        Ok(Token::NewLine),
    ]);
    let node = parser.parse_file().unwrap();
    let expected = Node::File {
        elements: vec![
            Expr::Command { parts: vec![Expr::Literal { text: "a".to_string() }] },
            Expr::Command { parts: vec![Expr::Literal { text: "b".to_string() }] },
        ],
    };
    assert_eq!(node, expected);
}

#[test]
fn semicolon_is_rejected_with_the_first_set() {
    let mut parser = parser_for("a;b");
    let err = parser.parse_command().unwrap_err();
    assert_eq!(
        err,
        Error::UnexpectedToken {
            actual: Token::Semi,
            expected: Expected::OneOf(vec![
                TokenKind::EOF,
                TokenKind::NewLine,
                TokenKind::Ident,
                TokenKind::Text,
                TokenKind::LParen,
                TokenKind::RParen,
            ]),
        },
    );
}

#[test]
fn top_level_closing_paren_is_rejected() {
    let mut parser = token_parser(vec![Ok(Token::RParen)]);
    let err = parser.parse_file().unwrap_err();
    assert_eq!(
        err,
        Error::UnexpectedToken {
            actual: Token::RParen,
            expected: Expected::OneOf(vec![
                TokenKind::EOF,
                TokenKind::NewLine,
                TokenKind::Ident,
                TokenKind::Text,
                TokenKind::LParen,
            ]),
        },
    );
}

#[test]
fn scanner_failure_aborts_the_parse() {
    let failure = Error::UnexpectedString {
        actual: "?".to_string(),
        span: Span { start: 3, end: 3 },
    };
    let mut parser = token_parser(vec![Ok(Token::Ident("x".to_string())), Err(failure)]);
    let err = parser.parse_file().unwrap_err();
    assert_eq!(
        err,
        Error::UnexpectedString { actual: "?".to_string(), span: Span { start: 3, end: 3 } },
    );
}
