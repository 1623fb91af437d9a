//! What holds of every text that is cut into tokens.

use crate::errors::Span;
use crate::lexer::rules::{
    all_digits, error_end, is_decimal_at, is_digit, is_lexeme, is_number, is_space, is_string,
    is_symbol, is_word, lemma_step_bounds, lex, lexeme_at, lexeme_kind, longest_lexeme, munch,
    scan,
};
use crate::lexer::token::{TokenKind, TokenView};
use vstd::prelude::*;
use vstd::string::*;
use vstd::utf8::*;

verus! {

/// The bytes of `bytes` that a token covers.
pub open spec fn lexeme_of(bytes: Seq<u8>, token: TokenView) -> Seq<u8> {
    bytes.subrange(token.span.start as int, token.span.end as int)
}

/// `token` is the token that `bytes` holds at the place that its span
/// names: there the longest lexeme starts, the span covers it, and the
/// token is the one that it stands for.
pub open spec fn is_token_of(bytes: Seq<u8>, token: TokenView) -> bool {
    let start = token.span.start as int;
    let end = token.span.end as int;
    &&& 0 <= start < end <= bytes.len()
    &&& !is_space(bytes[start])
    &&& munch(bytes, start) == end - start
    &&& token.kind == lexeme_kind(bytes.subrange(start, end))
}

/// One of the words that have a token of their own.
pub open spec fn is_reserved_word(lexeme: Seq<u8>) -> bool {
    ||| lexeme == "func".spec_bytes()
    ||| lexeme == "return".spec_bytes()
    ||| lexeme == "if".spec_bytes()
    ||| lexeme == "else".spec_bytes()
    ||| lexeme == "for".spec_bytes()
    ||| lexeme == "while".spec_bytes()
    ||| lexeme == "true".spec_bytes()
    ||| lexeme == "false".spec_bytes()
    ||| lexeme == "null".spec_bytes()
}

/// The longest lexeme is a lexeme, and nothing longer is one.
pub proof fn lemma_longest_lexeme(bytes: Seq<u8>, start: int, limit: int)
    requires
        0 <= limit,
    ensures
        longest_lexeme(bytes, start, limit) > 0 ==> lexeme_at(
            bytes,
            start,
            longest_lexeme(bytes, start, limit),
        ),
        forall|longer: int|
            longest_lexeme(bytes, start, limit) < longer <= limit ==> !#[trigger] lexeme_at(
                bytes,
                start,
                longer,
            ),
    decreases limit,
{
    if limit > 0 && !lexeme_at(bytes, start, limit) {
        lemma_longest_lexeme(bytes, start, limit - 1);
    }
}

/// A number starts with a digit.
pub proof fn lemma_number_start(number: Seq<u8>)
    requires
        is_number(number),
    ensures
        number.len() > 0,
        is_digit(number[0]),
{
    if number.len() > 0 && all_digits(number, 0, number.len() as int) {
    } else {
        let dot = choose|dot: int| is_decimal_at(number, dot);
        assert(is_decimal_at(number, dot));
    }
}

/// No lexeme starts with whitespace.
pub proof fn lemma_lexeme_start(lexeme: Seq<u8>)
    requires
        is_lexeme(lexeme),
    ensures
        lexeme.len() > 0,
        !is_space(lexeme[0]),
{
    if is_number(lexeme) {
        lemma_number_start(lexeme);
    }
}

/// The tokens of `bytes` from `pos` on are tokens of `bytes`, start at `pos`
/// or later, and stand in source order without overlap; the errors are
/// ranges of `bytes`.
pub proof fn lemma_scan_tokens(bytes: Seq<u8>, pos: int)
    requires
        bytes.len() <= usize::MAX,
        0 <= pos,
    ensures
        forall|i: int|
            0 <= i < scan(bytes, pos).tokens.len() ==> is_token_of(
                bytes,
                #[trigger] scan(bytes, pos).tokens[i],
            ) && pos <= scan(bytes, pos).tokens[i].span.start,
        forall|i: int, j: int|
            0 <= i < j < scan(bytes, pos).tokens.len() ==> (#[trigger] scan(
                bytes,
                pos,
            ).tokens[i]).span.end <= (#[trigger] scan(bytes, pos).tokens[j]).span.start,
        forall|i: int|
            0 <= i < scan(bytes, pos).errors.len() ==> pos <= (#[trigger] scan(
                bytes,
                pos,
            ).errors[i]).start < scan(bytes, pos).errors[i].end <= bytes.len(),
    decreases bytes.len() - pos,
{
    if pos >= bytes.len() {
    } else if is_space(bytes[pos]) {
        lemma_scan_tokens(bytes, pos + 1);
    } else {
        lemma_step_bounds(bytes, pos);
        let len = munch(bytes, pos);
        if len > 0 {
            lemma_scan_tokens(bytes, pos + len);
            let rest = scan(bytes, pos + len);
            let all = scan(bytes, pos);
            assert forall|i: int| 0 <= i < all.tokens.len() implies is_token_of(
                bytes,
                #[trigger] all.tokens[i],
            ) && pos <= all.tokens[i].span.start by {
                if i > 0 {
                    assert(all.tokens[i] == rest.tokens[i - 1]);
                }
            }
            assert forall|i: int, j: int| 0 <= i < j < all.tokens.len() implies (
            #[trigger] all.tokens[i]).span.end <= (#[trigger] all.tokens[j]).span.start by {
                assert(all.tokens[j] == rest.tokens[j - 1]);
                if i > 0 {
                    assert(all.tokens[i] == rest.tokens[i - 1]);
                }
            }
        } else {
            let end = error_end(bytes, pos);
            lemma_scan_tokens(bytes, end);
            let rest = scan(bytes, end);
            let all = scan(bytes, pos);
            assert forall|i: int| 0 <= i < all.errors.len() implies pos <= (
            #[trigger] all.errors[i]).start < all.errors[i].end <= bytes.len() by {
                if i > 0 {
                    assert(all.errors[i] == rest.errors[i - 1]);
                }
            }
        }
    }
}

/// Every token of a text covers a lexeme of the text.
pub proof fn lemma_token_is_lexeme(bytes: Seq<u8>, i: int)
    requires
        bytes.len() <= usize::MAX,
        0 <= i < lex(bytes).tokens.len(),
    ensures
        is_token_of(bytes, lex(bytes).tokens[i]),
        is_lexeme(lexeme_of(bytes, lex(bytes).tokens[i])),
{
    lemma_scan_tokens(bytes, 0);
    let token = lex(bytes).tokens[i];
    let start = token.span.start as int;
    lemma_longest_lexeme(bytes, start, bytes.len() - start);
    assert(lexeme_at(bytes, start, munch(bytes, start)));
}

/// Tokenizing again exactly the bytes that a token covers gives that one
/// token: the same kind with the same payload, and no error.
pub proof fn lemma_retokenize(bytes: Seq<u8>, i: int)
    requires
        bytes.len() <= usize::MAX,
        0 <= i < lex(bytes).tokens.len(),
    ensures
        ({
            let token = lex(bytes).tokens[i];
            let lexeme = lexeme_of(bytes, token);
            &&& lex(lexeme).errors == Seq::<Span>::empty()
            &&& lex(lexeme).tokens == seq![
                TokenView { kind: token.kind, span: Span { start: 0, end: lexeme.len() as usize } },
            ]
        }),
{
    lemma_token_is_lexeme(bytes, i);
    let token = lex(bytes).tokens[i];
    let lexeme = lexeme_of(bytes, token);
    lemma_lexeme_start(lexeme);
    let len = lexeme.len() as int;
    assert(lexeme.subrange(0, len) =~= lexeme);
    assert(lexeme_at(lexeme, 0, len));
    assert(munch(lexeme, 0) == len);
    let rest = scan(lexeme, len);
    assert(lex(lexeme).tokens =~= seq![
        TokenView { kind: token.kind, span: Span { start: 0, end: len as usize } },
    ]);
    assert(lex(lexeme).errors =~= Seq::<Span>::empty());
}

/// The longest match wins: every token covers a lexeme, and no longer run
/// of bytes from the same start is a lexeme.
pub proof fn lemma_maximal_munch(bytes: Seq<u8>, i: int, longer_end: int)
    requires
        bytes.len() <= usize::MAX,
        0 <= i < lex(bytes).tokens.len(),
        lex(bytes).tokens[i].span.end < longer_end <= bytes.len(),
    ensures
        is_lexeme(lexeme_of(bytes, lex(bytes).tokens[i])),
        !is_lexeme(bytes.subrange(lex(bytes).tokens[i].span.start as int, longer_end)),
{
    lemma_token_is_lexeme(bytes, i);
    let start = lex(bytes).tokens[i].span.start as int;
    lemma_longest_lexeme(bytes, start, bytes.len() - start);
    assert(!lexeme_at(bytes, start, longer_end - start));
}

/// A reserved word is never an identifier: the token of an identifier
/// covers a word that is not reserved.
pub proof fn lemma_identifier_is_not_reserved(bytes: Seq<u8>, i: int)
    requires
        bytes.len() <= usize::MAX,
        0 <= i < lex(bytes).tokens.len(),
        lex(bytes).tokens[i].kind is Identifier,
    ensures
        is_word(lexeme_of(bytes, lex(bytes).tokens[i])),
        !is_reserved_word(lexeme_of(bytes, lex(bytes).tokens[i])),
{
    lemma_token_is_lexeme(bytes, i);
    let lexeme = lexeme_of(bytes, lex(bytes).tokens[i]);
    if !is_string(lexeme) && !is_number(lexeme) && !is_word(lexeme) {
        assert(is_symbol(lexeme));
    }
}

/// The bytes of the word `func`.
pub proof fn lemma_func_bytes()
    ensures
        "func".spec_bytes() == seq![0x66u8, 0x75u8, 0x6eu8, 0x63u8],
{
    reveal_strlit("func");
    let chars = "func"@;
    assert(chars =~= seq!['f', 'u', 'n', 'c']);
    assert(is_ascii_chars(chars));
    is_ascii_chars_encode_utf8(chars);
    let bytes = encode_utf8(chars);
    assert(bytes[0] == chars[0] as u8);
    assert(bytes[1] == chars[1] as u8);
    assert(bytes[2] == chars[2] as u8);
    assert(bytes[3] == chars[3] as u8);
    assert(bytes =~= seq![0x66u8, 0x75u8, 0x6eu8, 0x63u8]);
}

/// Wherever a text holds the lexeme `func`, its token is the keyword.
pub proof fn lemma_func_is_keyword(bytes: Seq<u8>, i: int)
    requires
        bytes.len() <= usize::MAX,
        0 <= i < lex(bytes).tokens.len(),
        lexeme_of(bytes, lex(bytes).tokens[i]) == "func".spec_bytes(),
    ensures
        lex(bytes).tokens[i].kind == TokenKind::Func,
{
    lemma_token_is_lexeme(bytes, i);
    lemma_func_bytes();
    let lexeme = lexeme_of(bytes, lex(bytes).tokens[i]);
    assert(lexeme[0] == 0x66u8);
    assert(!is_string(lexeme));
    if is_number(lexeme) {
        lemma_number_start(lexeme);
    }
    assert(lexeme[1] == 0x75u8 && lexeme[2] == 0x6eu8 && lexeme[3] == 0x63u8);
    assert(is_word(lexeme));
}

/// The text `func` alone is the keyword token and nothing else.
pub proof fn lemma_func_alone()
    ensures
        lex("func".spec_bytes()).errors == Seq::<Span>::empty(),
        lex("func".spec_bytes()).tokens == seq![
            TokenView { kind: TokenKind::Func, span: Span { start: 0, end: 4 } },
        ],
{
    lemma_func_bytes();
    let bytes = "func".spec_bytes();
    assert(bytes.subrange(0, 4) =~= bytes);
    assert(is_word(bytes));
    assert(lexeme_at(bytes, 0, 4));
    assert(munch(bytes, 0) == 4);
    assert(!is_string(bytes));
    if is_number(bytes) {
        lemma_number_start(bytes);
    }
    let rest = scan(bytes, 4);
    assert(lex(bytes).tokens =~= seq![
        TokenView { kind: TokenKind::Func, span: Span { start: 0, end: 4 } },
    ]);
    assert(lex(bytes).errors =~= Seq::<Span>::empty());
}

/// One of `tokens` covers the byte at `index`.
pub open spec fn in_a_token(tokens: Seq<TokenView>, index: int) -> bool {
    exists|i: int| 0 <= i < tokens.len() && (#[trigger] tokens[i]).span.start <= index < tokens[i].span.end
}

/// One of `errors` covers the byte at `index`.
pub open spec fn in_an_error(errors: Seq<Span>, index: int) -> bool {
    exists|i: int| 0 <= i < errors.len() && (#[trigger] errors[i]).start <= index < errors[i].end
}

/// The scan passes over nothing: every byte from `pos` on is whitespace, or
/// belongs to a token, or belongs to a lexical error.
pub proof fn lemma_scan_is_complete(bytes: Seq<u8>, pos: int, index: int)
    requires
        bytes.len() <= usize::MAX,
        0 <= pos <= index < bytes.len(),
    ensures
        is_space(bytes[index]) || in_a_token(scan(bytes, pos).tokens, index) || in_an_error(
            scan(bytes, pos).errors,
            index,
        ),
    decreases bytes.len() - pos,
{
    let all = scan(bytes, pos);
    if is_space(bytes[pos]) {
        if index > pos {
            lemma_scan_is_complete(bytes, pos + 1, index);
        }
    } else {
        lemma_step_bounds(bytes, pos);
        let len = munch(bytes, pos);
        if len > 0 {
            let rest = scan(bytes, pos + len);
            if index < pos + len {
                assert(all.tokens[0].span.start <= index < all.tokens[0].span.end);
            } else {
                lemma_scan_is_complete(bytes, pos + len, index);
                if in_a_token(rest.tokens, index) {
                    let i = choose|i: int|
                        0 <= i < rest.tokens.len() && (#[trigger] rest.tokens[i]).span.start <= index
                            < rest.tokens[i].span.end;
                    assert(all.tokens[i + 1] == rest.tokens[i]);
                }
            }
        } else {
            let end = error_end(bytes, pos);
            let rest = scan(bytes, end);
            if index < end {
                assert(all.errors[0].start <= index < all.errors[0].end);
            } else {
                lemma_scan_is_complete(bytes, end, index);
                if in_an_error(rest.errors, index) {
                    let i = choose|i: int|
                        0 <= i < rest.errors.len() && (#[trigger] rest.errors[i]).start <= index
                            < rest.errors[i].end;
                    assert(all.errors[i + 1] == rest.errors[i]);
                }
            }
        }
    }
}

} // verus!
