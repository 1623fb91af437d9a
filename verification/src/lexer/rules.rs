//! The lexical grammar: which byte sequences are lexemes, which token each
//! one stands for, and how a whole text is cut into tokens.
//!
//! At every position the longest lexeme wins. Among the rules that match the
//! same bytes, a reserved word wins over an identifier.

use crate::errors::Span;
use crate::lexer::token::{TokenKind, TokenView};
use vstd::prelude::*;
use vstd::string::*;
use vstd::utf8::*;

verus! {

/// Horizontal tab.
pub const TAB: u8 = 0x09;
/// Line feed.
pub const LINE_FEED: u8 = 0x0a;
/// Carriage return.
pub const CARRIAGE_RETURN: u8 = 0x0d;
/// ` `
pub const SPACE: u8 = 0x20;
/// `!`
pub const BANG: u8 = 0x21;
/// `"`
pub const QUOTE: u8 = 0x22;
/// `&`
pub const AMPERSAND: u8 = 0x26;
/// `(`
pub const LEFT_PAREN: u8 = 0x28;
/// `)`
pub const RIGHT_PAREN: u8 = 0x29;
/// `*`
pub const STAR: u8 = 0x2a;
/// `+`
pub const PLUS: u8 = 0x2b;
/// `,`
pub const COMMA: u8 = 0x2c;
/// `-`
pub const MINUS: u8 = 0x2d;
/// `.`
pub const DOT: u8 = 0x2e;
/// `/`
pub const SLASH: u8 = 0x2f;
/// `:`
pub const COLON: u8 = 0x3a;
/// `;`
pub const SEMICOLON: u8 = 0x3b;
/// `<`
pub const LESS: u8 = 0x3c;
/// `=`
pub const EQUALS: u8 = 0x3d;
/// `>`
pub const GREATER: u8 = 0x3e;
/// `@`
pub const AT: u8 = 0x40;
/// `[`
pub const LEFT_BRACKET: u8 = 0x5b;
/// `\`
pub const BACKSLASH: u8 = 0x5c;
/// `]`
pub const RIGHT_BRACKET: u8 = 0x5d;
/// `_`
pub const UNDERSCORE: u8 = 0x5f;
/// `{`
pub const LEFT_BRACE: u8 = 0x7b;
/// `|`
pub const PIPE: u8 = 0x7c;
/// `}`
pub const RIGHT_BRACE: u8 = 0x7d;

/// Whitespace separates tokens and belongs to none: space, tab, newline.
pub open spec fn is_space(byte: u8) -> bool {
    byte == SPACE || byte == TAB || byte == LINE_FEED
}

/// `0` to `9`.
pub open spec fn is_digit(byte: u8) -> bool {
    0x30 <= byte <= 0x39
}

/// A letter of either case, or `_`.
pub open spec fn is_word_start(byte: u8) -> bool {
    (0x41 <= byte <= 0x5a) || (0x61 <= byte <= 0x7a) || byte == UNDERSCORE
}

/// A letter, `_` or a digit.
pub open spec fn is_word_byte(byte: u8) -> bool {
    is_word_start(byte) || is_digit(byte)
}

/// A byte that may stand between the quotes of a string literal: anything
/// but a quote, a backslash and the two line breaks.
pub open spec fn is_string_byte(byte: u8) -> bool {
    byte != QUOTE && byte != BACKSLASH && byte != CARRIAGE_RETURN && byte != LINE_FEED
}

/// The token of a one-byte operator or symbol.
pub open spec fn single_symbol(byte: u8) -> Option<TokenKind> {
    if byte == PLUS {
        Some(TokenKind::Plus)
    } else if byte == MINUS {
        Some(TokenKind::Minus)
    } else if byte == STAR {
        Some(TokenKind::Mul)
    } else if byte == SLASH {
        Some(TokenKind::Slash)
    } else if byte == EQUALS {
        Some(TokenKind::Eq)
    } else if byte == BANG {
        Some(TokenKind::Not)
    } else if byte == GREATER {
        Some(TokenKind::Greater)
    } else if byte == LESS {
        Some(TokenKind::Less)
    } else if byte == LEFT_PAREN {
        Some(TokenKind::LParen)
    } else if byte == RIGHT_PAREN {
        Some(TokenKind::RParen)
    } else if byte == LEFT_BRACE {
        Some(TokenKind::LBrace)
    } else if byte == RIGHT_BRACE {
        Some(TokenKind::RBrace)
    } else if byte == LEFT_BRACKET {
        Some(TokenKind::LBracket)
    } else if byte == RIGHT_BRACKET {
        Some(TokenKind::RBracket)
    } else if byte == SEMICOLON {
        Some(TokenKind::Semicolon)
    } else if byte == COLON {
        Some(TokenKind::Colon)
    } else if byte == COMMA {
        Some(TokenKind::Comma)
    } else if byte == DOT {
        Some(TokenKind::Dot)
    } else if byte == AT {
        Some(TokenKind::At)
    } else {
        None
    }
}

/// The token of a two-byte operator.
pub open spec fn double_symbol(first: u8, second: u8) -> Option<TokenKind> {
    if first == EQUALS && second == EQUALS {
        Some(TokenKind::DoubleEq)
    } else if first == BANG && second == EQUALS {
        Some(TokenKind::NotEq)
    } else if first == GREATER && second == EQUALS {
        Some(TokenKind::GreaterEq)
    } else if first == LESS && second == EQUALS {
        Some(TokenKind::LessEq)
    } else if first == AMPERSAND && second == AMPERSAND {
        Some(TokenKind::And)
    } else if first == PIPE && second == PIPE {
        Some(TokenKind::Or)
    } else {
        None
    }
}

/// A word: a letter or `_`, then letters, digits and `_`.
pub open spec fn is_word(lexeme: Seq<u8>) -> bool {
    &&& lexeme.len() > 0
    &&& is_word_start(lexeme[0])
    &&& forall|i: int| 0 <= i < lexeme.len() ==> is_word_byte(#[trigger] lexeme[i])
}

/// Every byte of `lexeme` from `from` up to `to` is a digit.
pub open spec fn all_digits(lexeme: Seq<u8>, from: int, to: int) -> bool {
    forall|i: int| from <= i < to ==> is_digit(#[trigger] lexeme[i])
}

/// `lexeme` is digits, a dot at index `dot`, and digits again.
pub open spec fn is_decimal_at(lexeme: Seq<u8>, dot: int) -> bool {
    &&& 0 < dot < lexeme.len() - 1
    &&& lexeme[dot] == DOT
    &&& all_digits(lexeme, 0, dot)
    &&& all_digits(lexeme, dot + 1, lexeme.len() as int)
}

/// A number: one or more digits, which a dot and one or more digits may
/// follow. It has no sign and no exponent.
pub open spec fn is_number(lexeme: Seq<u8>) -> bool {
    ||| (lexeme.len() > 0 && all_digits(lexeme, 0, lexeme.len() as int))
    ||| exists|dot: int| is_decimal_at(lexeme, dot)
}

/// A string literal: a quote, bytes that may stand in a string, a quote.
pub open spec fn is_string(lexeme: Seq<u8>) -> bool {
    &&& lexeme.len() >= 2
    &&& lexeme[0] == QUOTE
    &&& lexeme[lexeme.len() - 1] == QUOTE
    &&& forall|i: int| 0 < i < lexeme.len() - 1 ==> is_string_byte(#[trigger] lexeme[i])
}

/// An operator or symbol, of one byte or of two.
pub open spec fn is_symbol(lexeme: Seq<u8>) -> bool {
    ||| (lexeme.len() == 1 && single_symbol(lexeme[0]) is Some)
    ||| (lexeme.len() == 2 && double_symbol(lexeme[0], lexeme[1]) is Some)
}

/// The byte sequences that are one token.
pub open spec fn is_lexeme(lexeme: Seq<u8>) -> bool {
    is_word(lexeme) || is_number(lexeme) || is_string(lexeme) || is_symbol(lexeme)
}

/// The token of a word: a reserved word has a token of its own, and every
/// other word is an identifier.
pub open spec fn word_kind(lexeme: Seq<u8>) -> TokenKind {
    if lexeme == "func".spec_bytes() {
        TokenKind::Func
    } else if lexeme == "return".spec_bytes() {
        TokenKind::Return
    } else if lexeme == "if".spec_bytes() {
        TokenKind::If
    } else if lexeme == "else".spec_bytes() {
        TokenKind::Else
    } else if lexeme == "for".spec_bytes() {
        TokenKind::For
    } else if lexeme == "while".spec_bytes() {
        TokenKind::While
    } else if lexeme == "true".spec_bytes() {
        TokenKind::BoolLiteral(true)
    } else if lexeme == "false".spec_bytes() {
        TokenKind::BoolLiteral(false)
    } else if lexeme == "null".spec_bytes() {
        TokenKind::NullLiteral
    } else {
        TokenKind::Identifier(decode_utf8(lexeme))
    }
}

/// The token that a lexeme stands for.
pub open spec fn lexeme_kind(lexeme: Seq<u8>) -> TokenKind
    recommends
        is_lexeme(lexeme),
{
    if is_string(lexeme) {
        TokenKind::StringLiteral(decode_utf8(lexeme.subrange(1, lexeme.len() - 1)))
    } else if is_number(lexeme) {
        TokenKind::IntLiteral(decode_utf8(lexeme))
    } else if is_word(lexeme) {
        word_kind(lexeme)
    } else if lexeme.len() == 2 {
        double_symbol(lexeme[0], lexeme[1]).unwrap()
    } else {
        single_symbol(lexeme[0]).unwrap()
    }
}

/// The `len` bytes of `bytes` that start at `start` are a lexeme.
pub open spec fn lexeme_at(bytes: Seq<u8>, start: int, len: int) -> bool {
    is_lexeme(bytes.subrange(start, start + len))
}

/// The length of the longest lexeme of at most `limit` bytes that starts at
/// `start`, and 0 where there is none.
pub open spec fn longest_lexeme(bytes: Seq<u8>, start: int, limit: int) -> int
    decreases limit,
{
    if limit <= 0 {
        0
    } else if lexeme_at(bytes, start, limit) {
        limit
    } else {
        longest_lexeme(bytes, start, limit - 1)
    }
}

/// The length of the longest lexeme that starts at `start`, and 0 where no
/// lexeme starts there.
pub open spec fn munch(bytes: Seq<u8>, start: int) -> int {
    longest_lexeme(bytes, start, bytes.len() - start)
}

/// The first index from `from` on whose byte may not stand in a string, or
/// the end of `bytes`.
pub open spec fn string_body_end(bytes: Seq<u8>, from: int) -> int
    decreases bytes.len() - from,
{
    if 0 <= from < bytes.len() && is_string_byte(bytes[from]) {
        string_body_end(bytes, from + 1)
    } else {
        from
    }
}

/// The first index from `from` on that does not stand inside a character, or
/// the end of `bytes`.
pub open spec fn next_boundary(bytes: Seq<u8>, from: int) -> int
    decreases bytes.len() - from,
{
    if 0 <= from < bytes.len() && is_continuation_byte(bytes[from]) {
        next_boundary(bytes, from + 1)
    } else {
        from
    }
}

/// Where the bytes that are reported as one lexical error end, when no
/// lexeme starts at `start`. A string literal that is not closed is reported
/// from its quote up to the byte that cannot continue it; any other
/// character is reported alone.
pub open spec fn error_end(bytes: Seq<u8>, start: int) -> int {
    if bytes[start] == QUOTE {
        string_body_end(bytes, start + 1)
    } else {
        next_boundary(bytes, start + 1)
    }
}

/// The lexeme lengths and error ends stay inside the text.
pub proof fn lemma_step_bounds(bytes: Seq<u8>, start: int)
    requires
        0 <= start < bytes.len(),
    ensures
        0 <= munch(bytes, start) <= bytes.len() - start,
        start < error_end(bytes, start) <= bytes.len(),
{
    lemma_longest_bounds(bytes, start, bytes.len() - start);
    lemma_string_body_end_bounds(bytes, start + 1);
    lemma_next_boundary_bounds(bytes, start + 1);
}

/// The longest lexeme is no longer than the limit.
pub proof fn lemma_longest_bounds(bytes: Seq<u8>, start: int, limit: int)
    requires
        0 <= limit,
    ensures
        0 <= longest_lexeme(bytes, start, limit) <= limit,
    decreases limit,
{
    if limit > 0 && !lexeme_at(bytes, start, limit) {
        lemma_longest_bounds(bytes, start, limit - 1);
    }
}

/// The body of a string ends at or after its start and inside the text.
pub proof fn lemma_string_body_end_bounds(bytes: Seq<u8>, from: int)
    requires
        0 <= from <= bytes.len(),
    ensures
        from <= string_body_end(bytes, from) <= bytes.len(),
    decreases bytes.len() - from,
{
    if from < bytes.len() && is_string_byte(bytes[from]) {
        lemma_string_body_end_bounds(bytes, from + 1);
    }
}

/// The next boundary is at or after the start and inside the text.
pub proof fn lemma_next_boundary_bounds(bytes: Seq<u8>, from: int)
    requires
        0 <= from <= bytes.len(),
    ensures
        from <= next_boundary(bytes, from) <= bytes.len(),
    decreases bytes.len() - from,
{
    if from < bytes.len() && is_continuation_byte(bytes[from]) {
        lemma_next_boundary_bounds(bytes, from + 1);
    }
}

/// What lexing a text gives: its tokens in source order, and the spans of
/// the byte sequences that match no rule.
pub struct LexOutput {
    pub tokens: Seq<TokenView>,
    pub errors: Seq<Span>,
}

/// The tokens and errors of `bytes` from `pos` on. Whitespace is skipped; a
/// lexical error does not stop the scan.
pub open spec fn scan(bytes: Seq<u8>, pos: int) -> LexOutput
    decreases bytes.len() - pos,
{
    if pos < 0 || pos >= bytes.len() {
        LexOutput { tokens: Seq::empty(), errors: Seq::empty() }
    } else if is_space(bytes[pos]) {
        scan(bytes, pos + 1)
    } else {
        proof {
            lemma_step_bounds(bytes, pos);
        }
        let len = munch(bytes, pos);
        if len > 0 {
            let token = TokenView {
                kind: lexeme_kind(bytes.subrange(pos, pos + len)),
                span: Span { start: pos as usize, end: (pos + len) as usize },
            };
            let rest = scan(bytes, pos + len);
            LexOutput { tokens: seq![token] + rest.tokens, errors: rest.errors }
        } else {
            let end = error_end(bytes, pos);
            let span = Span { start: pos as usize, end: end as usize };
            let rest = scan(bytes, end);
            LexOutput { tokens: rest.tokens, errors: seq![span] + rest.errors }
        }
    }
}

/// The tokens and errors of a whole text.
pub open spec fn lex(bytes: Seq<u8>) -> LexOutput {
    scan(bytes, 0)
}

} // verus!
