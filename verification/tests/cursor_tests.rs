use zxx::errors::Span;
use zxx::lexer::token::{Token, TokenType};
use zxx::lexer::Lexer;
use zxx::parser::cursor::Cursor;

fn tokens(source: &str) -> Vec<Token> {
    Lexer::new("cursor.zxx", source).tokenize().unwrap()
}

#[test]
fn cursor_on_no_tokens_stays_at_the_end() {
    let none = tokens("");
    let mut cursor = Cursor::new(&none);
    assert_eq!(cursor.index(), 0);
    assert_eq!(cursor.peek(), None);
    assert_eq!(cursor.peek_next(), None);
    assert_eq!(cursor.previous(), None);
    assert_eq!(cursor.last(), None);
    assert_eq!(cursor.advance(), None);
    assert_eq!(cursor.expect(&TokenType::Func), None);
    assert_eq!(cursor.index(), 0);
}

#[test]
fn cursor_looks_one_token_ahead() {
    let all = tokens("func f (");
    let mut cursor = Cursor::new(&all);
    assert_eq!(cursor.peek(), Some(&all[0]));
    assert_eq!(cursor.peek_next(), Some(&all[1]));
    assert_eq!(cursor.previous(), None);
    assert_eq!(cursor.last(), Some(&all[2]));
    assert_eq!(cursor.index(), 0);

    assert_eq!(cursor.advance(), Some(&all[0]));
    assert_eq!(cursor.index(), 1);
    assert_eq!(cursor.peek(), Some(&all[1]));
    assert_eq!(cursor.peek_next(), Some(&all[2]));
    assert_eq!(cursor.previous(), Some(&all[0]));

    assert_eq!(cursor.advance(), Some(&all[1]));
    assert_eq!(cursor.peek(), Some(&all[2]));
    assert_eq!(cursor.peek_next(), None);

    assert_eq!(cursor.advance(), Some(&all[2]));
    assert_eq!(cursor.index(), 3);
    assert_eq!(cursor.peek(), None);
    assert_eq!(cursor.peek_next(), None);
    assert_eq!(cursor.previous(), Some(&all[2]));
    assert_eq!(cursor.last(), Some(&all[2]));

    assert_eq!(cursor.advance(), None);
    assert_eq!(cursor.index(), 3);
}

#[test]
fn cursor_moves_only_past_the_expected_kind() {
    let all = tokens("name 12 )");
    let mut cursor = Cursor::new(&all);
    assert_eq!(cursor.expect(&TokenType::Func), None);
    assert_eq!(cursor.expect(&TokenType::IntLiteral(String::new())), None);
    assert_eq!(cursor.index(), 0);
    assert_eq!(cursor.expect(&TokenType::Identifier("another".to_string())), Some(&all[0]));
    assert_eq!(cursor.index(), 1);
    assert_eq!(cursor.expect(&TokenType::Identifier("name".to_string())), None);
    assert_eq!(cursor.expect(&TokenType::IntLiteral("7".to_string())), Some(&all[1]));
    assert_eq!(cursor.expect(&TokenType::LParen), None);
    assert_eq!(cursor.expect(&TokenType::RParen), Some(&all[2]));
    assert_eq!(cursor.expect(&TokenType::RParen), None);
    assert_eq!(cursor.index(), 3);
}

#[test]
fn kinds_are_compared_without_payloads() {
    let kinds = vec![
        TokenType::Func,
        TokenType::Return,
        TokenType::If,
        TokenType::Else,
        TokenType::For,
        TokenType::While,
        TokenType::IntLiteral("1".to_string()),
        TokenType::BoolLiteral(true),
        TokenType::StringLiteral("s".to_string()),
        TokenType::NullLiteral,
        TokenType::Identifier("i".to_string()),
        TokenType::Plus,
        TokenType::Minus,
        TokenType::Mul,
        TokenType::Slash,
        TokenType::Eq,
        TokenType::DoubleEq,
        TokenType::Not,
        TokenType::NotEq,
        TokenType::Greater,
        TokenType::Less,
        TokenType::GreaterEq,
        TokenType::LessEq,
        TokenType::And,
        TokenType::Or,
        TokenType::LParen,
        TokenType::RParen,
        TokenType::LBrace,
        TokenType::RBrace,
        TokenType::LBracket,
        TokenType::RBracket,
        TokenType::Semicolon,
        TokenType::Colon,
        TokenType::Comma,
        TokenType::Dot,
        TokenType::At,
    ];
    for (i, left) in kinds.iter().enumerate() {
        for (j, right) in kinds.iter().enumerate() {
            assert_eq!(left.same_kind(right), i == j);
        }
        assert_eq!(left.clone(), *left);
    }
    assert!(TokenType::BoolLiteral(true).same_kind(&TokenType::BoolLiteral(false)));
    assert!(TokenType::Identifier("a".to_string()).same_kind(&TokenType::Identifier("b".to_string())));
    assert!(!TokenType::Identifier("1".to_string()).same_kind(&TokenType::IntLiteral("1".to_string())));
}

#[test]
fn copied_token_is_equal() {
    let token = Token { token_type: TokenType::StringLiteral("s".to_string()), span: Span { start: 1, end: 4 } };
    assert_eq!(token.clone(), token);
}
