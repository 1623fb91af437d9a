//! Lemmas that the scanner rests on.

use crate::lexer::rules::{lexeme_at, longest_lexeme};
use vstd::prelude::*;
use vstd::utf8::*;

verus! {

/// A lexeme of `len` bytes that no longer lexeme beats is the longest one.
pub proof fn lemma_longest_is(bytes: Seq<u8>, start: int, limit: int, len: int)
    requires
        0 <= len <= limit,
        len > 0 ==> lexeme_at(bytes, start, len),
        forall|longer: int| len < longer <= limit ==> !#[trigger] lexeme_at(bytes, start, longer),
    ensures
        longest_lexeme(bytes, start, limit) == len,
    decreases limit,
{
    if limit > len {
        assert(!lexeme_at(bytes, start, limit));
        lemma_longest_is(bytes, start, limit - 1, len);
    }
}

/// In well-formed UTF-8 a character starts right after every ASCII byte.
pub proof fn lemma_boundary_after_ascii(bytes: Seq<u8>, index: int)
    requires
        valid_utf8(bytes),
        0 <= index < bytes.len(),
        bytes[index] <= 0x7f,
    ensures
        is_char_boundary(bytes, index + 1),
    decreases bytes.len(),
{
    let first = length_of_first_scalar(bytes);
    let rest = pop_first_scalar(bytes);
    if index == 0 {
        assert(is_char_boundary(rest, 0));
    } else {
        is_char_boundary_iff_not_is_continuation_byte(bytes, index);
        assert(is_char_boundary(bytes, index));
        assert(index >= first) by {
            reveal_with_fuel(is_char_boundary, 2);
        }
        assert(rest[index - first] == bytes[index]);
        lemma_boundary_after_ascii(rest, index - first);
    }
}

/// In well-formed UTF-8 a character starts at every byte that is not a
/// continuation byte, and at the end.
pub proof fn lemma_boundary_at(bytes: Seq<u8>, index: int)
    requires
        valid_utf8(bytes),
        0 <= index <= bytes.len(),
        index < bytes.len() ==> !is_continuation_byte(bytes[index]),
    ensures
        is_char_boundary(bytes, index),
{
    if index < bytes.len() {
        is_char_boundary_iff_not_is_continuation_byte(bytes, index);
    } else {
        is_char_boundary_start_end_of_seq(bytes);
    }
}

} // verus!
