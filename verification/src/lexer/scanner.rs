//! The scanner: finding the token that starts at a position.

use crate::errors::Span;
use crate::lexer::proofs::{lemma_boundary_after_ascii, lemma_boundary_at, lemma_longest_is};
use crate::lexer::rules::{
    double_symbol, error_end, is_decimal_at, is_digit, is_number, is_space, is_string,
    is_string_byte, is_symbol, is_word, is_word_byte, is_word_start, lexeme_at, lexeme_kind, munch,
    next_boundary, single_symbol, string_body_end, word_kind, AMPERSAND, AT, BACKSLASH, BANG,
    CARRIAGE_RETURN, COLON, COMMA, DOT, EQUALS, GREATER, LEFT_BRACE, LEFT_BRACKET, LEFT_PAREN, LESS,
    LINE_FEED, MINUS, PIPE, PLUS, QUOTE, RIGHT_BRACE, RIGHT_BRACKET, RIGHT_PAREN, SEMICOLON, SLASH,
    SPACE, STAR, TAB, UNDERSCORE,
};
use crate::lexer::token::{Token, TokenType, TokenView};
use vstd::prelude::*;
use vstd::string::*;
use vstd::utf8::*;

verus! {

/// `byte` is whitespace.
pub fn space_byte(byte: u8) -> (yes: bool)
    ensures
        yes == is_space(byte),
{
    byte == SPACE || byte == TAB || byte == LINE_FEED
}

/// `byte` is a digit.
pub fn digit_byte(byte: u8) -> (yes: bool)
    ensures
        yes == is_digit(byte),
{
    0x30 <= byte && byte <= 0x39
}

/// `byte` may start a word.
pub fn word_start_byte(byte: u8) -> (yes: bool)
    ensures
        yes == is_word_start(byte),
{
    (0x41 <= byte && byte <= 0x5a) || (0x61 <= byte && byte <= 0x7a) || byte == UNDERSCORE
}

/// `byte` may stand in a word.
pub fn word_byte(byte: u8) -> (yes: bool)
    ensures
        yes == is_word_byte(byte),
{
    word_start_byte(byte) || digit_byte(byte)
}

/// `byte` may stand between the quotes of a string literal.
pub fn string_byte(byte: u8) -> (yes: bool)
    ensures
        yes == is_string_byte(byte),
{
    byte != QUOTE && byte != BACKSLASH && byte != CARRIAGE_RETURN && byte != LINE_FEED
}

/// Where the word that starts at `pos` ends.
pub fn word_end(bytes: &[u8], pos: usize) -> (end: usize)
    requires
        pos < bytes.len(),
        is_word_start(bytes[pos as int]),
    ensures
        pos < end <= bytes.len(),
        munch(bytes@, pos as int) == end - pos,
        is_word(bytes@.subrange(pos as int, end as int)),
{
    let mut end: usize = pos + 1;
    while end < bytes.len() && word_byte(bytes[end])
        invariant
            pos < end <= bytes.len(),
            forall|i: int| pos <= i < end ==> is_word_byte(#[trigger] bytes@[i]),
        decreases bytes.len() - end,
    {
        end = end + 1;
    }
    proof {
        let all = bytes@;
        let len = end - pos;
        let word = all.subrange(pos as int, end as int);
        assert(word[0] == all[pos as int]);
        assert forall|i: int| 0 <= i < word.len() implies is_word_byte(#[trigger] word[i]) by {
            assert(word[i] == all[pos + i]);
        }
        assert(is_word(word));
        assert forall|longer: int| len < longer <= all.len() - pos implies !#[trigger] lexeme_at(
            all,
            pos as int,
            longer,
        ) by {
            let other = all.subrange(pos as int, pos + longer);
            assert(other[0] == all[pos as int]);
            assert(other[len] == all[end as int]);
            assert(other[1] == all[pos + 1]);
            assert(!is_word(other));
            assert(!is_number(other));
            assert(!is_string(other));
            assert(!is_symbol(other));
        }
        lemma_longest_is(all, pos as int, all.len() - pos, len);
    }
    end
}

/// Where the number that starts at `pos` ends.
pub fn number_end(bytes: &[u8], pos: usize) -> (end: usize)
    requires
        pos < bytes.len(),
        is_digit(bytes[pos as int]),
    ensures
        pos < end <= bytes.len(),
        munch(bytes@, pos as int) == end - pos,
        is_number(bytes@.subrange(pos as int, end as int)),
{
    let mut whole: usize = pos + 1;
    while whole < bytes.len() && digit_byte(bytes[whole])
        invariant
            pos < whole <= bytes.len(),
            forall|i: int| pos <= i < whole ==> is_digit(#[trigger] bytes@[i]),
        decreases bytes.len() - whole,
    {
        whole = whole + 1;
    }
    let ghost all = bytes@;
    if whole < bytes.len() - 1 && bytes[whole] == DOT && digit_byte(bytes[whole + 1]) {
        let mut end: usize = whole + 2;
        while end < bytes.len() && digit_byte(bytes[end])
            invariant
                whole + 2 <= end <= bytes.len(),
                forall|i: int| whole < i < end ==> is_digit(#[trigger] bytes@[i]),
            decreases bytes.len() - end,
        {
            end = end + 1;
        }
        proof {
            let len = end - pos;
            let dot = whole - pos;
            let number = all.subrange(pos as int, end as int);
            assert forall|i: int| 0 <= i < dot implies is_digit(#[trigger] number[i]) by {
                assert(number[i] == all[pos + i]);
            }
            assert forall|i: int| dot + 1 <= i < number.len() implies is_digit(
                #[trigger] number[i],
            ) by {
                assert(number[i] == all[pos + i]);
            }
            assert(number[dot] == all[whole as int]);
            assert(is_decimal_at(number, dot));
            assert forall|longer: int| len < longer <= all.len() - pos implies !#[trigger] lexeme_at(
                all,
                pos as int,
                longer,
            ) by {
                let other = all.subrange(pos as int, pos + longer);
                assert(other[0] == all[pos as int]);
                assert(other[dot] == all[whole as int]);
                assert(other[len] == all[end as int]);
                assert forall|at: int| !is_decimal_at(other, at) by {
                    if is_decimal_at(other, at) {
                        if at < dot {
                            assert(other[at] == all[pos + at]);
                        } else if at > dot {
                            assert(is_digit(other[dot]));
                        } else {
                            assert(is_digit(other[len]));
                        }
                    }
                }
                assert(!is_number(other));
                assert(!is_word(other));
                assert(!is_string(other));
                assert(!is_symbol(other));
            }
            lemma_longest_is(all, pos as int, all.len() - pos, len);
        }
        end
    } else {
        proof {
            let len = whole - pos;
            let number = all.subrange(pos as int, whole as int);
            assert forall|i: int| 0 <= i < number.len() implies is_digit(#[trigger] number[i]) by {
                assert(number[i] == all[pos + i]);
            }
            assert(is_number(number));
            assert forall|longer: int| len < longer <= all.len() - pos implies !#[trigger] lexeme_at(
                all,
                pos as int,
                longer,
            ) by {
                let other = all.subrange(pos as int, pos + longer);
                assert(other[0] == all[pos as int]);
                assert(other[len] == all[whole as int]);
                assert forall|at: int| !is_decimal_at(other, at) by {
                    if is_decimal_at(other, at) {
                        if at < len {
                            assert(other[at] == all[pos + at]);
                        } else if at > len {
                            assert(is_digit(other[len]));
                        } else {
                            assert(other[len + 1] == all[whole + 1]);
                            assert(is_digit(other[len + 1]));
                        }
                    }
                }
                assert(!is_number(other));
                assert(!is_word(other));
                assert(!is_string(other));
                assert(!is_symbol(other));
            }
            lemma_longest_is(all, pos as int, all.len() - pos, len);
        }
        whole
    }
}

/// Where the string literal that starts at `pos` ends, if it is closed
/// (`true`), and else where the bytes to report as an error end (`false`).
pub fn string_end(bytes: &[u8], pos: usize) -> (found: (bool, usize))
    requires
        pos < bytes.len(),
        bytes[pos as int] == QUOTE,
    ensures
        pos < found.1 <= bytes.len(),
        found.0 ==> munch(bytes@, pos as int) == found.1 - pos && is_string(
            bytes@.subrange(pos as int, found.1 as int),
        ),
        !found.0 ==> munch(bytes@, pos as int) == 0 && found.1 == error_end(bytes@, pos as int),
        found.0 ==> bytes[found.1 - 1] == QUOTE,
        !found.0 && found.1 < bytes.len() ==> !is_string_byte(bytes[found.1 as int]),
{
    let mut stop: usize = pos + 1;
    while stop < bytes.len() && string_byte(bytes[stop])
        invariant
            pos < stop <= bytes.len(),
            forall|i: int| pos < i < stop ==> is_string_byte(#[trigger] bytes@[i]),
            string_body_end(bytes@, pos + 1) == string_body_end(bytes@, stop as int),
        decreases bytes.len() - stop,
    {
        stop = stop + 1;
    }
    let ghost all = bytes@;
    if stop < bytes.len() && bytes[stop] == QUOTE {
        proof {
            let len = stop + 1 - pos;
            let string = all.subrange(pos as int, stop + 1);
            assert(string[0] == all[pos as int]);
            assert(string[len - 1] == all[stop as int]);
            assert forall|i: int| 0 < i < string.len() - 1 implies is_string_byte(
                #[trigger] string[i],
            ) by {
                assert(string[i] == all[pos + i]);
            }
            assert(is_string(string));
            assert forall|longer: int| len < longer <= all.len() - pos implies !#[trigger] lexeme_at(
                all,
                pos as int,
                longer,
            ) by {
                let other = all.subrange(pos as int, pos + longer);
                assert(other[0] == all[pos as int]);
                assert(other[len - 1] == all[stop as int]);
                assert(!is_string_byte(other[len - 1]));
                assert(!is_string(other));
                assert(!is_word(other));
                assert(!is_number(other));
                assert(!is_symbol(other));
            }
            lemma_longest_is(all, pos as int, all.len() - pos, len);
        }
        (true, stop + 1)
    } else {
        proof {
            assert forall|longer: int| 0 < longer <= all.len() - pos implies !#[trigger] lexeme_at(
                all,
                pos as int,
                longer,
            ) by {
                let other = all.subrange(pos as int, pos + longer);
                assert(other[0] == all[pos as int]);
                if longer >= 2 {
                    assert(other[longer - 1] == all[pos + longer - 1]);
                    if pos + longer - 1 > stop {
                        assert(other[stop - pos] == all[stop as int]);
                        assert(!is_string_byte(other[stop - pos]));
                    }
                }
                assert(!is_string(other));
                assert(!is_word(other));
                assert(!is_number(other));
                assert(!is_symbol(other));
            }
            lemma_longest_is(all, pos as int, all.len() - pos, 0);
        }
        (false, stop)
    }
}

/// Where the character that starts at `pos` ends.
pub fn char_end(bytes: &[u8], pos: usize) -> (end: usize)
    requires
        pos < bytes.len(),
    ensures
        pos < end <= bytes.len(),
        end == next_boundary(bytes@, pos + 1),
        end < bytes.len() ==> !is_continuation_byte(bytes[end as int]),
{
    let mut end: usize = pos + 1;
    while end < bytes.len() && 0x80 <= bytes[end] && bytes[end] <= 0xbf
        invariant
            pos < end <= bytes.len(),
            next_boundary(bytes@, pos + 1) == next_boundary(bytes@, end as int),
        decreases bytes.len() - end,
    {
        end = end + 1;
    }
    end
}

/// The token of the one-byte operator or symbol `byte`.
pub fn single_symbol_type(byte: u8) -> (found: Option<TokenType>)
    ensures
        match found {
            Some(token_type) => single_symbol(byte) == Some(token_type@),
            None => single_symbol(byte) is None,
        },
{
    if byte == PLUS {
        Some(TokenType::Plus)
    } else if byte == MINUS {
        Some(TokenType::Minus)
    } else if byte == STAR {
        Some(TokenType::Mul)
    } else if byte == SLASH {
        Some(TokenType::Slash)
    } else if byte == EQUALS {
        Some(TokenType::Eq)
    } else if byte == BANG {
        Some(TokenType::Not)
    } else if byte == GREATER {
        Some(TokenType::Greater)
    } else if byte == LESS {
        Some(TokenType::Less)
    } else if byte == LEFT_PAREN {
        Some(TokenType::LParen)
    } else if byte == RIGHT_PAREN {
        Some(TokenType::RParen)
    } else if byte == LEFT_BRACE {
        Some(TokenType::LBrace)
    } else if byte == RIGHT_BRACE {
        Some(TokenType::RBrace)
    } else if byte == LEFT_BRACKET {
        Some(TokenType::LBracket)
    } else if byte == RIGHT_BRACKET {
        Some(TokenType::RBracket)
    } else if byte == SEMICOLON {
        Some(TokenType::Semicolon)
    } else if byte == COLON {
        Some(TokenType::Colon)
    } else if byte == COMMA {
        Some(TokenType::Comma)
    } else if byte == DOT {
        Some(TokenType::Dot)
    } else if byte == AT {
        Some(TokenType::At)
    } else {
        None
    }
}

/// The token of the two-byte operator `first`, `second`.
pub fn double_symbol_type(first: u8, second: u8) -> (found: Option<TokenType>)
    ensures
        match found {
            Some(token_type) => double_symbol(first, second) == Some(token_type@),
            None => double_symbol(first, second) is None,
        },
{
    if first == EQUALS && second == EQUALS {
        Some(TokenType::DoubleEq)
    } else if first == BANG && second == EQUALS {
        Some(TokenType::NotEq)
    } else if first == GREATER && second == EQUALS {
        Some(TokenType::GreaterEq)
    } else if first == LESS && second == EQUALS {
        Some(TokenType::LessEq)
    } else if first == AMPERSAND && second == AMPERSAND {
        Some(TokenType::And)
    } else if first == PIPE && second == PIPE {
        Some(TokenType::Or)
    } else {
        None
    }
}

/// The operator or symbol that starts at `pos` and where it ends, if there
/// is one. Two bytes that form an operator are taken together.
pub fn symbol_at(bytes: &[u8], pos: usize) -> (found: Option<(TokenType, usize)>)
    requires
        pos < bytes.len(),
        !is_word_start(bytes[pos as int]),
        !is_digit(bytes[pos as int]),
        bytes[pos as int] != QUOTE,
    ensures
        match found {
            Some((token_type, end)) => {
                &&& pos < end <= bytes.len()
                &&& munch(bytes@, pos as int) == end - pos
                &&& token_type@ == lexeme_kind(bytes@.subrange(pos as int, end as int))
                &&& bytes[end - 1] <= 0x7f
            },
            None => munch(bytes@, pos as int) == 0,
        },
{
    let ghost all = bytes@;
    let first = bytes[pos];
    if pos + 1 < bytes.len() {
        let second = bytes[pos + 1];
        match double_symbol_type(first, second) {
            Some(token_type) => {
                proof {
                    let symbol = all.subrange(pos as int, pos + 2);
                    assert(symbol[0] == first && symbol[1] == second);
                    assert(is_symbol(symbol));
                    assert(!is_string(symbol) && !is_number(symbol) && !is_word(symbol));
                    assert forall|longer: int| 2 < longer <= all.len() - pos implies !#[trigger] lexeme_at(
                        all,
                        pos as int,
                        longer,
                    ) by {
                        let other = all.subrange(pos as int, pos + longer);
                        assert(other[0] == first);
                        assert(!is_string(other) && !is_number(other) && !is_word(other));
                    }
                    lemma_longest_is(all, pos as int, all.len() - pos, 2);
                }
                return Some((token_type, pos + 2));
            },
            None => {},
        }
    }
    match single_symbol_type(first) {
        Some(token_type) => {
            proof {
                let symbol = all.subrange(pos as int, pos + 1);
                assert(symbol[0] == first);
                assert(is_symbol(symbol));
                assert(!is_string(symbol) && !is_number(symbol) && !is_word(symbol));
                assert forall|longer: int| 1 < longer <= all.len() - pos implies !#[trigger] lexeme_at(
                    all,
                    pos as int,
                    longer,
                ) by {
                    let other = all.subrange(pos as int, pos + longer);
                    assert(other[0] == first);
                    assert(other[1] == all[pos + 1]);
                    assert(!is_string(other) && !is_number(other) && !is_word(other));
                }
                lemma_longest_is(all, pos as int, all.len() - pos, 1);
            }
            Some((token_type, pos + 1))
        },
        None => {
            proof {
                assert forall|longer: int| 0 < longer <= all.len() - pos implies !#[trigger] lexeme_at(
                    all,
                    pos as int,
                    longer,
                ) by {
                    let other = all.subrange(pos as int, pos + longer);
                    assert(other[0] == first);
                    if longer >= 2 {
                        assert(other[1] == all[pos + 1]);
                    }
                    assert(!is_string(other) && !is_number(other) && !is_word(other));
                }
                lemma_longest_is(all, pos as int, all.len() - pos, 0);
            }
            None
        },
    }
}

/// The part of `text` from byte `start` up to byte `end`.
pub fn slice_of<'a>(text: &'a str, start: usize, end: usize) -> (piece: &'a str)
    requires
        start <= end <= text.spec_bytes().len(),
        is_char_boundary(text.spec_bytes(), start as int),
        is_char_boundary(text.spec_bytes(), end as int),
    ensures
        piece.spec_bytes() == text.spec_bytes().subrange(start as int, end as int),
{
    broadcast use {encode_utf8_valid_utf8, valid_utf8_split};

    let (head, _) = text.split_at(end);
    proof {
        let all = text.spec_bytes();
        assert(head.spec_bytes() =~= all.subrange(0, end as int));
        if start < end {
            is_char_boundary_iff_not_is_continuation_byte(all, start as int);
            assert(head.spec_bytes()[start as int] == all[start as int]);
        }
        lemma_boundary_at(head.spec_bytes(), start as int);
    }
    let (_, piece) = head.split_at(start);
    assert(piece.spec_bytes() =~= text.spec_bytes().subrange(start as int, end as int));
    piece
}

/// The characters of `text` from byte `start` up to byte `end`.
pub fn lexeme_text(text: &str, start: usize, end: usize) -> (payload: String)
    requires
        start <= end <= text.spec_bytes().len(),
        is_char_boundary(text.spec_bytes(), start as int),
        is_char_boundary(text.spec_bytes(), end as int),
    ensures
        payload@ == decode_utf8(text.spec_bytes().subrange(start as int, end as int)),
{
    let piece = slice_of(text, start, end);
    proof {
        encode_utf8_decode_utf8(piece@);
    }
    piece.to_owned()
}

/// The bytes of `bytes` from `start` up to `end` are those of `word`.
pub fn same_bytes(bytes: &[u8], start: usize, end: usize, word: &[u8]) -> (same: bool)
    requires
        start <= end <= bytes.len(),
    ensures
        same == (bytes@.subrange(start as int, end as int) == word@),
{
    if end - start != word.len() {
        return false;
    }
    let mut i: usize = 0;
    while i < word.len()
        invariant
            start <= end <= bytes.len(),
            end - start == word.len(),
            i <= word.len(),
            forall|k: int| 0 <= k < i ==> bytes@[start + k] == word@[k],
        decreases word.len() - i,
    {
        if bytes[start + i] != word[i] {
            assert(bytes@.subrange(start as int, end as int)[i as int] != word@[i as int]);
            return false;
        }
        i = i + 1;
    }
    assert(bytes@.subrange(start as int, end as int) =~= word@);
    true
}

/// The token of the word that `text` holds from byte `start` up to byte `end`.
pub fn word_token(text: &str, bytes: &[u8], start: usize, end: usize) -> (token_type: TokenType)
    requires
        bytes@ == text.spec_bytes(),
        start < end <= bytes.len(),
        is_word(bytes@.subrange(start as int, end as int)),
    ensures
        token_type@ == word_kind(bytes@.subrange(start as int, end as int)),
{
    if same_bytes(bytes, start, end, "func".as_bytes()) {
        TokenType::Func
    } else if same_bytes(bytes, start, end, "return".as_bytes()) {
        TokenType::Return
    } else if same_bytes(bytes, start, end, "if".as_bytes()) {
        TokenType::If
    } else if same_bytes(bytes, start, end, "else".as_bytes()) {
        TokenType::Else
    } else if same_bytes(bytes, start, end, "for".as_bytes()) {
        TokenType::For
    } else if same_bytes(bytes, start, end, "while".as_bytes()) {
        TokenType::While
    } else if same_bytes(bytes, start, end, "true".as_bytes()) {
        TokenType::BoolLiteral(true)
    } else if same_bytes(bytes, start, end, "false".as_bytes()) {
        TokenType::BoolLiteral(false)
    } else if same_bytes(bytes, start, end, "null".as_bytes()) {
        TokenType::NullLiteral
    } else {
        proof {
            broadcast use encode_utf8_valid_utf8;

            let all = bytes@;
            let word = all.subrange(start as int, end as int);
            assert(word[0] == all[start as int]);
            assert(word[word.len() - 1] == all[end - 1]);
            assert(is_word_byte(word[word.len() - 1]));
            lemma_boundary_at(all, start as int);
            lemma_boundary_after_ascii(all, end - 1);
        }
        TokenType::Identifier(lexeme_text(text, start, end))
    }
}

/// The token that starts at `pos`, or the span of the bytes there that
/// match no rule.
pub fn next_token(text: &str, bytes: &[u8], pos: usize) -> (step: Result<Token, Span>)
    requires
        bytes@ == text.spec_bytes(),
        pos < bytes.len(),
        !is_space(bytes[pos as int]),
    ensures
        match step {
            Ok(token) => {
                let len = munch(bytes@, pos as int);
                &&& 0 < len <= bytes.len() - pos
                &&& token@ == (TokenView {
                    kind: lexeme_kind(bytes@.subrange(pos as int, pos + len)),
                    span: Span { start: pos, end: (pos + len) as usize },
                })
            },
            Err(span) => {
                &&& munch(bytes@, pos as int) == 0
                &&& pos < error_end(bytes@, pos as int) <= bytes.len()
                &&& span == (Span { start: pos, end: error_end(bytes@, pos as int) as usize })
            },
        },
{
    broadcast use encode_utf8_valid_utf8;

    let ghost all = bytes@;
    let first = bytes[pos];
    if word_start_byte(first) {
        let end = word_end(bytes, pos);
        proof {
            let word = all.subrange(pos as int, end as int);
            assert(word[0] == first);
            assert(!is_string(word) && !is_number(word));
        }
        let token_type = word_token(text, bytes, pos, end);
        Ok(Token { token_type, span: Span { start: pos, end } })
    } else if digit_byte(first) {
        let end = number_end(bytes, pos);
        proof {
            let number = all.subrange(pos as int, end as int);
            assert(number[0] == first);
            assert(!is_string(number));
            assert(number[number.len() - 1] == all[end - 1]);
            lemma_number_ends_in_digit(number);
            lemma_boundary_at(all, pos as int);
            lemma_boundary_after_ascii(all, end - 1);
        }
        let payload = lexeme_text(text, pos, end);
        Ok(Token { token_type: TokenType::IntLiteral(payload), span: Span { start: pos, end } })
    } else if first == QUOTE {
        let (closed, end) = string_end(bytes, pos);
        if closed {
            proof {
                let string = all.subrange(pos as int, end as int);
                assert(string.subrange(1, string.len() - 1) =~= all.subrange(pos + 1, end - 1));
                lemma_boundary_after_ascii(all, pos as int);
                lemma_boundary_at(all, end - 1);
            }
            let payload = lexeme_text(text, pos + 1, end - 1);
            Ok(Token { token_type: TokenType::StringLiteral(payload), span: Span { start: pos, end } })
        } else {
            Err(Span { start: pos, end })
        }
    } else {
        match symbol_at(bytes, pos) {
            Some((token_type, end)) => Ok(Token { token_type, span: Span { start: pos, end } }),
            None => {
                let end = char_end(bytes, pos);
                Err(Span { start: pos, end })
            },
        }
    }
}

/// The last byte of a number is a digit.
pub proof fn lemma_number_ends_in_digit(number: Seq<u8>)
    requires
        is_number(number),
    ensures
        number.len() > 0,
        is_digit(number[number.len() - 1]),
{
    if number.len() > 0 && (forall|i: int| 0 <= i < number.len() ==> is_digit(#[trigger] number[i])) {
    } else {
        let dot = choose|dot: int| is_decimal_at(number, dot);
        assert(is_decimal_at(number, dot));
    }
}

} // verus!
