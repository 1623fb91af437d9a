//! Tokens: what the lexer hands to the parser.

use crate::errors::Span;
use vstd::prelude::*;

verus! {

/// The kind of a token, with its payload where it has one.
#[derive(Debug, PartialEq)]
pub enum TokenType {
    // Keywords
    Func,
    Return,
    If,
    Else,
    For,
    While,
    // Literals
    /// A numeric literal; the payload is the literal's text, which is the
    /// decimal notation of its value.
    IntLiteral(String),
    BoolLiteral(bool),
    /// A string literal; the payload is the text between the quotes.
    StringLiteral(String),
    NullLiteral,
    Identifier(String),
    // Operators and symbols
    Plus,
    Minus,
    Mul,
    Slash,
    Eq,
    DoubleEq,
    Not,
    NotEq,
    Greater,
    Less,
    GreaterEq,
    LessEq,
    And,
    Or,
    LParen,
    RParen,
    LBrace,
    RBrace,
    LBracket,
    RBracket,
    Semicolon,
    Colon,
    Comma,
    Dot,
    At,
}

/// A [`TokenType`] with its payload as a character sequence.
pub enum TokenKind {
    Func,
    Return,
    If,
    Else,
    For,
    While,
    IntLiteral(Seq<char>),
    BoolLiteral(bool),
    StringLiteral(Seq<char>),
    NullLiteral,
    Identifier(Seq<char>),
    Plus,
    Minus,
    Mul,
    Slash,
    Eq,
    DoubleEq,
    Not,
    NotEq,
    Greater,
    Less,
    GreaterEq,
    LessEq,
    And,
    Or,
    LParen,
    RParen,
    LBrace,
    RBrace,
    LBracket,
    RBracket,
    Semicolon,
    Colon,
    Comma,
    Dot,
    At,
}

impl View for TokenType {
    type V = TokenKind;

    open spec fn view(&self) -> TokenKind {
        match self {
            TokenType::Func => TokenKind::Func,
            TokenType::Return => TokenKind::Return,
            TokenType::If => TokenKind::If,
            TokenType::Else => TokenKind::Else,
            TokenType::For => TokenKind::For,
            TokenType::While => TokenKind::While,
            TokenType::IntLiteral(text) => TokenKind::IntLiteral(text@),
            TokenType::BoolLiteral(value) => TokenKind::BoolLiteral(*value),
            TokenType::StringLiteral(text) => TokenKind::StringLiteral(text@),
            TokenType::NullLiteral => TokenKind::NullLiteral,
            TokenType::Identifier(name) => TokenKind::Identifier(name@),
            TokenType::Plus => TokenKind::Plus,
            TokenType::Minus => TokenKind::Minus,
            TokenType::Mul => TokenKind::Mul,
            TokenType::Slash => TokenKind::Slash,
            TokenType::Eq => TokenKind::Eq,
            TokenType::DoubleEq => TokenKind::DoubleEq,
            TokenType::Not => TokenKind::Not,
            TokenType::NotEq => TokenKind::NotEq,
            TokenType::Greater => TokenKind::Greater,
            TokenType::Less => TokenKind::Less,
            TokenType::GreaterEq => TokenKind::GreaterEq,
            TokenType::LessEq => TokenKind::LessEq,
            TokenType::And => TokenKind::And,
            TokenType::Or => TokenKind::Or,
            TokenType::LParen => TokenKind::LParen,
            TokenType::RParen => TokenKind::RParen,
            TokenType::LBrace => TokenKind::LBrace,
            TokenType::RBrace => TokenKind::RBrace,
            TokenType::LBracket => TokenKind::LBracket,
            TokenType::RBracket => TokenKind::RBracket,
            TokenType::Semicolon => TokenKind::Semicolon,
            TokenType::Colon => TokenKind::Colon,
            TokenType::Comma => TokenKind::Comma,
            TokenType::Dot => TokenKind::Dot,
            TokenType::At => TokenKind::At,
        }
    }
}

impl Clone for TokenType {
    fn clone(&self) -> (copy: TokenType)
        ensures
            copy@ == self@,
    {
        match self {
            TokenType::Func => TokenType::Func,
            TokenType::Return => TokenType::Return,
            TokenType::If => TokenType::If,
            TokenType::Else => TokenType::Else,
            TokenType::For => TokenType::For,
            TokenType::While => TokenType::While,
            TokenType::IntLiteral(text) => TokenType::IntLiteral(text.clone()),
            TokenType::BoolLiteral(value) => TokenType::BoolLiteral(*value),
            TokenType::StringLiteral(text) => TokenType::StringLiteral(text.clone()),
            TokenType::NullLiteral => TokenType::NullLiteral,
            TokenType::Identifier(name) => TokenType::Identifier(name.clone()),
            TokenType::Plus => TokenType::Plus,
            TokenType::Minus => TokenType::Minus,
            TokenType::Mul => TokenType::Mul,
            TokenType::Slash => TokenType::Slash,
            TokenType::Eq => TokenType::Eq,
            TokenType::DoubleEq => TokenType::DoubleEq,
            TokenType::Not => TokenType::Not,
            TokenType::NotEq => TokenType::NotEq,
            TokenType::Greater => TokenType::Greater,
            TokenType::Less => TokenType::Less,
            TokenType::GreaterEq => TokenType::GreaterEq,
            TokenType::LessEq => TokenType::LessEq,
            TokenType::And => TokenType::And,
            TokenType::Or => TokenType::Or,
            TokenType::LParen => TokenType::LParen,
            TokenType::RParen => TokenType::RParen,
            TokenType::LBrace => TokenType::LBrace,
            TokenType::RBrace => TokenType::RBrace,
            TokenType::LBracket => TokenType::LBracket,
            TokenType::RBracket => TokenType::RBracket,
            TokenType::Semicolon => TokenType::Semicolon,
            TokenType::Colon => TokenType::Colon,
            TokenType::Comma => TokenType::Comma,
            TokenType::Dot => TokenType::Dot,
            TokenType::At => TokenType::At,
        }
    }
}

/// The two tokens are of one kind, whatever their payloads.
pub open spec fn same_kind(left: TokenKind, right: TokenKind) -> bool {
    match (left, right) {
        (TokenKind::Func, TokenKind::Func) => true,
        (TokenKind::Return, TokenKind::Return) => true,
        (TokenKind::If, TokenKind::If) => true,
        (TokenKind::Else, TokenKind::Else) => true,
        (TokenKind::For, TokenKind::For) => true,
        (TokenKind::While, TokenKind::While) => true,
        (TokenKind::IntLiteral(_), TokenKind::IntLiteral(_)) => true,
        (TokenKind::BoolLiteral(_), TokenKind::BoolLiteral(_)) => true,
        (TokenKind::StringLiteral(_), TokenKind::StringLiteral(_)) => true,
        (TokenKind::NullLiteral, TokenKind::NullLiteral) => true,
        (TokenKind::Identifier(_), TokenKind::Identifier(_)) => true,
        (TokenKind::Plus, TokenKind::Plus) => true,
        (TokenKind::Minus, TokenKind::Minus) => true,
        (TokenKind::Mul, TokenKind::Mul) => true,
        (TokenKind::Slash, TokenKind::Slash) => true,
        (TokenKind::Eq, TokenKind::Eq) => true,
        (TokenKind::DoubleEq, TokenKind::DoubleEq) => true,
        (TokenKind::Not, TokenKind::Not) => true,
        (TokenKind::NotEq, TokenKind::NotEq) => true,
        (TokenKind::Greater, TokenKind::Greater) => true,
        (TokenKind::Less, TokenKind::Less) => true,
        (TokenKind::GreaterEq, TokenKind::GreaterEq) => true,
        (TokenKind::LessEq, TokenKind::LessEq) => true,
        (TokenKind::And, TokenKind::And) => true,
        (TokenKind::Or, TokenKind::Or) => true,
        (TokenKind::LParen, TokenKind::LParen) => true,
        (TokenKind::RParen, TokenKind::RParen) => true,
        (TokenKind::LBrace, TokenKind::LBrace) => true,
        (TokenKind::RBrace, TokenKind::RBrace) => true,
        (TokenKind::LBracket, TokenKind::LBracket) => true,
        (TokenKind::RBracket, TokenKind::RBracket) => true,
        (TokenKind::Semicolon, TokenKind::Semicolon) => true,
        (TokenKind::Colon, TokenKind::Colon) => true,
        (TokenKind::Comma, TokenKind::Comma) => true,
        (TokenKind::Dot, TokenKind::Dot) => true,
        (TokenKind::At, TokenKind::At) => true,
        _ => false,
    }
}

impl TokenType {
    /// This token is of the kind of `other`, whatever the payloads.
    pub fn same_kind(&self, other: &TokenType) -> (same: bool)
        ensures
            same == same_kind(self@, other@),
    {
        match (self, other) {
            (TokenType::Func, TokenType::Func) => true,
            (TokenType::Return, TokenType::Return) => true,
            (TokenType::If, TokenType::If) => true,
            (TokenType::Else, TokenType::Else) => true,
            (TokenType::For, TokenType::For) => true,
            (TokenType::While, TokenType::While) => true,
            (TokenType::IntLiteral(_), TokenType::IntLiteral(_)) => true,
            (TokenType::BoolLiteral(_), TokenType::BoolLiteral(_)) => true,
            (TokenType::StringLiteral(_), TokenType::StringLiteral(_)) => true,
            (TokenType::NullLiteral, TokenType::NullLiteral) => true,
            (TokenType::Identifier(_), TokenType::Identifier(_)) => true,
            (TokenType::Plus, TokenType::Plus) => true,
            (TokenType::Minus, TokenType::Minus) => true,
            (TokenType::Mul, TokenType::Mul) => true,
            (TokenType::Slash, TokenType::Slash) => true,
            (TokenType::Eq, TokenType::Eq) => true,
            (TokenType::DoubleEq, TokenType::DoubleEq) => true,
            (TokenType::Not, TokenType::Not) => true,
            (TokenType::NotEq, TokenType::NotEq) => true,
            (TokenType::Greater, TokenType::Greater) => true,
            (TokenType::Less, TokenType::Less) => true,
            (TokenType::GreaterEq, TokenType::GreaterEq) => true,
            (TokenType::LessEq, TokenType::LessEq) => true,
            (TokenType::And, TokenType::And) => true,
            (TokenType::Or, TokenType::Or) => true,
            (TokenType::LParen, TokenType::LParen) => true,
            (TokenType::RParen, TokenType::RParen) => true,
            (TokenType::LBrace, TokenType::LBrace) => true,
            (TokenType::RBrace, TokenType::RBrace) => true,
            (TokenType::LBracket, TokenType::LBracket) => true,
            (TokenType::RBracket, TokenType::RBracket) => true,
            (TokenType::Semicolon, TokenType::Semicolon) => true,
            (TokenType::Colon, TokenType::Colon) => true,
            (TokenType::Comma, TokenType::Comma) => true,
            (TokenType::Dot, TokenType::Dot) => true,
            (TokenType::At, TokenType::At) => true,
            _ => false,
        }
    }
}

/// One token of the source text and the bytes it covers.
#[derive(Debug, PartialEq)]
pub struct Token {
    pub token_type: TokenType,
    pub span: Span,
}

/// A [`Token`] with its payload as a character sequence.
pub struct TokenView {
    pub kind: TokenKind,
    pub span: Span,
}

impl View for Token {
    type V = TokenView;

    open spec fn view(&self) -> TokenView {
        TokenView { kind: self.token_type@, span: self.span }
    }
}

impl Clone for Token {
    fn clone(&self) -> (copy: Token)
        ensures
            copy@ == self@,
    {
        Token { token_type: self.token_type.clone(), span: self.span }
    }
}

/// What a list of tokens holds, in order.
pub open spec fn token_views(tokens: Seq<Token>) -> Seq<TokenView> {
    tokens.map_values(|token: Token| token@)
}

} // verus!
