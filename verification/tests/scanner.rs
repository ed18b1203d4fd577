use shellfront::scanner::{
    char_items, is_ident_part, is_ident_start, is_whitespace, CharItem, ScanMode, Scanner, Span,
    Token,
};
use shellfront::util::VecSource;

fn scanner_for(text: &str) -> Scanner<VecSource<CharItem>> {
    Scanner::new(VecSource::new(char_items(text), CharItem::End))
}

#[test]
fn test_scan_text() {
    let mut scanner = scanner_for("foo bar baz");
    let t0 = scanner.scan().unwrap();
    assert_eq!(t0, Token::Text("foo bar baz".to_string()));
}

#[test]
fn test_scan_dollar() {
    let mut scanner = scanner_for("$foo baz $bar");
    let t1 = scanner.scan().unwrap();
    assert_eq!(t1, Token::DollarIdent("foo".to_string()));
    let t2 = scanner.scan().unwrap();
    assert_eq!(t2, Token::Text(" baz ".to_string()));
    let t3 = scanner.scan().unwrap();
    assert_eq!(t3, Token::DollarIdent("bar".to_string()));
}

#[test]
fn coalesces_plain_text_into_one_token() {
    let mut scanner = scanner_for("hello,\nworld!");
    assert_eq!(scanner.scan().unwrap(), Token::Text("hello,\nworld!".to_string()));
    assert_eq!(scanner.scan().unwrap(), Token::EOF);
}

#[test]
fn semicolon_single() {
    let mut scanner = scanner_for("a;b");
    assert_eq!(scanner.scan().unwrap(), Token::Text("a".to_string()));
    assert_eq!(scanner.scan().unwrap(), Token::Semi);
    assert_eq!(scanner.scan().unwrap(), Token::Text("b".to_string()));
    assert_eq!(scanner.scan().unwrap(), Token::EOF);
}

#[test]
fn semicolon_double() {
    let mut scanner = scanner_for("a;;b");
    assert_eq!(scanner.scan().unwrap(), Token::Text("a".to_string()));
    assert_eq!(scanner.scan().unwrap(), Token::SemiSemi);
    assert_eq!(scanner.scan().unwrap(), Token::Text("b".to_string()));
    assert_eq!(scanner.scan().unwrap(), Token::EOF);
}

#[test]
fn double_sigil() {
    let mut scanner = scanner_for("$$");
    assert_eq!(scanner.scan().unwrap(), Token::DollarDollar);
    assert_eq!(scanner.scan().unwrap(), Token::EOF);
}

#[test]
fn lone_sigil() {
    let mut scanner = scanner_for("$ ");
    assert_eq!(scanner.scan().unwrap(), Token::Dollar);
    assert_eq!(scanner.scan().unwrap(), Token::Text(" ".to_string()));
    assert_eq!(scanner.scan().unwrap(), Token::EOF);
}

#[test]
fn sigil_at_end_of_input() {
    let mut scanner = scanner_for("$");
    assert_eq!(scanner.scan().unwrap(), Token::Dollar);
    assert_eq!(scanner.scan().unwrap(), Token::EOF);
}

#[test]
fn parens_and_brackets() {
    let mut scanner = scanner_for("([x])");
    assert_eq!(scanner.scan().unwrap(), Token::LParen);
    assert_eq!(scanner.scan().unwrap(), Token::LBracket);
    assert_eq!(scanner.scan().unwrap(), Token::Text("x".to_string()));
    assert_eq!(scanner.scan().unwrap(), Token::RBracket);
    assert_eq!(scanner.scan().unwrap(), Token::RParen);
    assert_eq!(scanner.scan().unwrap(), Token::EOF);
}

#[test]
fn keywords_scan_to_keyword_tokens() {
    let cases = [
        ("if", Token::IfKeyword),
        ("fi", Token::FiKeyword),
        ("for", Token::ForKeyword),
        ("while", Token::WhileKeyword),
        ("do", Token::DoKeyword),
        ("done", Token::DoneKeyword),
        ("case", Token::CaseKeyword),
        ("esac", Token::EsacKeyword),
    ];
    for (text, expected) in cases {
        let mut scanner = scanner_for(text);
        scanner.set_mode(ScanMode::Expr);
        assert_eq!(scanner.scan().unwrap(), expected);
        assert_eq!(scanner.scan().unwrap(), Token::EOF);
    }
}

#[test]
fn other_identifiers_scan_to_ident_tokens() {
    for text in ["ifx", "elif", "until", "function", "x_1"] {
        let mut scanner = scanner_for(text);
        scanner.set_mode(ScanMode::Expr);
        assert_eq!(scanner.scan().unwrap(), Token::Ident(text.to_string()));
        assert_eq!(scanner.scan().unwrap(), Token::EOF);
    }
}

#[test]
fn integer_accumulates_all_digits() {
    let mut scanner = scanner_for("123");
    scanner.set_mode(ScanMode::Expr);
    assert_eq!(scanner.scan().unwrap(), Token::Integer(123));
    assert_eq!(scanner.scan().unwrap(), Token::EOF);
}

#[test]
fn integer_stops_before_identifier() {
    let mut scanner = scanner_for("45done");
    scanner.set_mode(ScanMode::Expr);
    assert_eq!(scanner.scan().unwrap(), Token::Integer(45));
    assert_eq!(scanner.scan().unwrap(), Token::DoneKeyword);
    assert_eq!(scanner.scan().unwrap(), Token::EOF);
}

#[test]
fn unexpected_character_in_expr_mode() {
    let mut scanner = scanner_for("?");
    scanner.set_mode(ScanMode::Expr);
    let err = scanner.scan().unwrap_err();
    match err {
        shellfront::result::Error::UnexpectedString { actual, span } => {
            assert_eq!(actual, "?".to_string());
            assert_eq!(span, Span { start: 0, end: 0 });
        },
        other => panic!("wrong error: {:?}", other),
    }
}

#[test]
fn failing_scan_consumes_nothing() {
    let mut scanner = scanner_for("#ok");
    scanner.set_mode(ScanMode::Expr);
    assert!(scanner.scan().is_err());
    assert!(scanner.scan().is_err());
    scanner.set_mode(ScanMode::Text);
    assert_eq!(scanner.scan().unwrap(), Token::Text("#ok".to_string()));
}

#[test]
fn terminal_token_is_idempotent() {
    let mut scanner = scanner_for("ab");
    assert_eq!(scanner.scan().unwrap(), Token::Text("ab".to_string()));
    assert_eq!(scanner.span(), Span { start: 0, end: 2 });
    for _ in 0..3 {
        assert_eq!(scanner.scan().unwrap(), Token::EOF);
        assert_eq!(scanner.span(), Span { start: 2, end: 2 });
    }
}

#[test]
fn spans_track_token_extents() {
    let mut scanner = scanner_for("ab;;c");
    assert_eq!(scanner.scan().unwrap(), Token::Text("ab".to_string()));
    assert_eq!(scanner.span(), Span { start: 0, end: 2 });
    assert_eq!(scanner.scan().unwrap(), Token::SemiSemi);
    assert_eq!(scanner.span(), Span { start: 2, end: 4 });
    assert_eq!(scanner.scan().unwrap(), Token::Text("c".to_string()));
    assert_eq!(scanner.span(), Span { start: 4, end: 5 });
}

#[test]
fn character_classes() {
    assert!(is_whitespace(' '));
    assert!(is_whitespace('\n'));
    assert!(!is_whitespace('x'));
    assert!(is_ident_start('a'));
    assert!(is_ident_start('_'));
    assert!(!is_ident_start('1'));
    assert!(!is_ident_start(';'));
    assert!(is_ident_part('a'));
    assert!(is_ident_part('1'));
    assert!(is_ident_part('_'));
    assert!(!is_ident_part(' '));
}
