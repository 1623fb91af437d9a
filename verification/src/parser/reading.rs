//! Reading single tokens: their values, the types they name, and how they
//! are named in messages.

use crate::ast::{Type, TypedValue};
use crate::lexer::rules::is_digit;
use crate::lexer::scanner::{digit_byte, same_bytes};
use crate::lexer::token::TokenType;
use crate::parser::grammar::{decimal, describe, number_value, token_value, type_named};
use vstd::prelude::*;
use vstd::string::*;
use vstd::utf8::*;

verus! {

/// The two texts are the same.
pub fn same_text(left: &str, right: &str) -> (same: bool)
    ensures
        same == (left@ == right@),
{
    let left_bytes = left.as_bytes();
    let right_bytes = right.as_bytes();
    proof {
        encode_utf8_decode_utf8(left@);
        encode_utf8_decode_utf8(right@);
        assert(left_bytes@.subrange(0, left_bytes@.len() as int) =~= left_bytes@);
    }
    same_bytes(left_bytes, 0, left_bytes.len(), right_bytes)
}

/// `first` followed by `second`.
pub fn join(first: &str, second: &str) -> (text: String)
    ensures
        text@ == first@ + second@,
{
    first.to_owned().concat(second)
}

/// How a token is named in a message.
pub fn describe_token(token_type: &TokenType) -> (text: String)
    ensures
        text@ == describe(token_type@),
{
    match token_type {
        TokenType::Func => "'func'".to_owned(),
        TokenType::Return => "'return'".to_owned(),
        TokenType::If => "'if'".to_owned(),
        TokenType::Else => "'else'".to_owned(),
        TokenType::For => "'for'".to_owned(),
        TokenType::While => "'while'".to_owned(),
        TokenType::NullLiteral => "'null'".to_owned(),
        TokenType::Plus => "'+'".to_owned(),
        TokenType::Minus => "'-'".to_owned(),
        TokenType::Mul => "'*'".to_owned(),
        TokenType::Slash => "'/'".to_owned(),
        TokenType::Eq => "'='".to_owned(),
        TokenType::DoubleEq => "'=='".to_owned(),
        TokenType::Not => "'!'".to_owned(),
        TokenType::NotEq => "'!='".to_owned(),
        TokenType::Greater => "'>'".to_owned(),
        TokenType::Less => "'<'".to_owned(),
        TokenType::GreaterEq => "'>='".to_owned(),
        TokenType::LessEq => "'<='".to_owned(),
        TokenType::And => "'&&'".to_owned(),
        TokenType::Or => "'||'".to_owned(),
        TokenType::LParen => "'('".to_owned(),
        TokenType::RParen => "')'".to_owned(),
        TokenType::LBrace => "'{'".to_owned(),
        TokenType::RBrace => "'}'".to_owned(),
        TokenType::LBracket => "'['".to_owned(),
        TokenType::RBracket => "']'".to_owned(),
        TokenType::Semicolon => "';'".to_owned(),
        TokenType::Colon => "':'".to_owned(),
        TokenType::Comma => "','".to_owned(),
        TokenType::Dot => "'.'".to_owned(),
        TokenType::At => "'@'".to_owned(),
        TokenType::IntLiteral(text) => join("number ", text.as_str()),
        TokenType::BoolLiteral(value) => if *value {
            "'true'".to_owned()
        } else {
            "'false'".to_owned()
        },
        TokenType::StringLiteral(text) => join("string \"", text.as_str()).concat("\""),
        TokenType::Identifier(name) => join("identifier ", name.as_str()),
    }
}

/// A longer run of digits writes a number that is no smaller.
pub proof fn lemma_decimal_grows(digits: Seq<u8>, shorter: int)
    requires
        0 <= shorter <= digits.len(),
        forall|i: int| 0 <= i < digits.len() ==> is_digit(#[trigger] digits[i]),
    ensures
        decimal(digits.subrange(0, shorter)) <= decimal(digits),
    decreases digits.len() - shorter,
{
    if shorter < digits.len() {
        lemma_decimal_grows(digits, shorter + 1);
        let longer = digits.subrange(0, shorter + 1);
        assert(longer.drop_last() =~= digits.subrange(0, shorter));
        assert(longer.last() == digits[shorter]);
    } else {
        assert(digits.subrange(0, shorter) =~= digits);
    }
}

/// The value of the numeric literal `text`.
pub fn number_of(text: &String) -> (value: TypedValue)
    ensures
        value@ == number_value(text@),
{
    let bytes = text.as_str().as_bytes();
    let ghost digits = bytes@;
    let mut total: i64 = 0;
    let mut i: usize = 0;
    while i < bytes.len()
        invariant
            i <= bytes.len(),
            digits == bytes@,
            digits == encode_utf8(text@),
            forall|k: int| 0 <= k < i ==> is_digit(#[trigger] digits[k]),
            0 <= total,
            total == decimal(digits.subrange(0, i as int)),
        decreases bytes.len() - i,
    {
        let byte = bytes[i];
        if !digit_byte(byte) {
            return TypedValue::FloatVal(text.clone());
        }
        let digit: i64 = (byte - 0x30) as i64;
        proof {
            let longer = digits.subrange(0, i + 1);
            assert(longer.drop_last() =~= digits.subrange(0, i as int));
            assert(longer.last() == byte);
            assert(decimal(longer) == total * 10 + digit);
        }
        if total > (i64::MAX - digit) / 10 {
            proof {
                if forall|k: int| 0 <= k < digits.len() ==> is_digit(#[trigger] digits[k]) {
                    lemma_decimal_grows(digits, i + 1);
                }
            }
            return TypedValue::FloatVal(text.clone());
        }
        total = total * 10 + digit;
        i = i + 1;
    }
    proof {
        assert(digits.subrange(0, i as int) =~= digits);
    }
    TypedValue::IntVal(total)
}

/// The value that a token writes, if it writes one.
pub fn value_of(token_type: &TokenType) -> (value: Option<TypedValue>)
    ensures
        match value {
            Some(value) => token_value(token_type@) == Some(value@),
            None => token_value(token_type@) is None,
        },
{
    match token_type {
        TokenType::Identifier(name) => Some(TypedValue::IdentVal(name.clone())),
        TokenType::StringLiteral(text) => Some(TypedValue::StringVal(text.clone())),
        TokenType::IntLiteral(text) => Some(number_of(text)),
        TokenType::BoolLiteral(value) => Some(TypedValue::BoolVal(*value)),
        TokenType::NullLiteral => Some(TypedValue::NullVal),
        _ => None,
    }
}

/// The type that a token names, if it names one.
pub fn type_of_name(token_type: &TokenType) -> (named: Option<Type>)
    ensures
        named == type_named(token_type@),
{
    match token_type {
        TokenType::Identifier(name) => {
            let name = name.as_str();
            if same_text(name, "string") {
                Some(Type::String)
            } else if same_text(name, "int") {
                Some(Type::Int)
            } else if same_text(name, "float") {
                Some(Type::Float)
            } else if same_text(name, "bool") {
                Some(Type::Boolean)
            } else if same_text(name, "void") {
                Some(Type::Void)
            } else {
                Some(Type::Reference)
            }
        },
        TokenType::NullLiteral => Some(Type::Null),
        _ => None,
    }
}

} // verus!
