//! Text decoding and character classes taken from the standard library.
//!
//! Everything in this module that is not proved is listed here: the lossy
//! decoding of bytes and the classification of white space.
use vstd::prelude::*;
use vstd::utf8::{
    decode_utf8, decode_utf8_split, is_char_boundary, length_of_first_scalar, pop_first_scalar,
    valid_utf8, valid_utf8_concat,
};

verus! {

/// The text that `String::from_utf8_lossy` produces for `bytes`: the decoded
/// characters, with every ill-formed byte sequence replaced by U+FFFD.
pub uninterp spec fn lossy_text(bytes: Seq<u8>) -> Seq<char>;

/// Whether `c` has the Unicode `White_Space` property, as
/// `char::is_whitespace` reports it.
pub uninterp spec fn white_space(c: char) -> bool;

/// The text of a raw chunk. Well-formed UTF-8 decodes to itself; anything
/// else decodes lossily.
pub open spec fn decoded(bytes: Seq<u8>) -> Seq<char> {
    if valid_utf8(bytes) {
        decode_utf8(bytes)
    } else {
        lossy_text(bytes)
    }
}

/// Calls `String::from_utf8_lossy` and takes ownership of what it returns.
///
/// Trusted: on well-formed UTF-8 the function returns the text unchanged, so
/// the result is the plain decoding; on any other input the result is the
/// replacement text named by [`lossy_text`]. Either way it depends on the
/// bytes alone.
#[verifier::external_body]
pub(crate) fn decode_lossy(bytes: &[u8]) -> (text: String)
    ensures
        text@ == (if valid_utf8(bytes@) {
            decode_utf8(bytes@)
        } else {
            lossy_text(bytes@)
        }),
{
    String::from_utf8_lossy(bytes).into_owned()
}

/// Trusted: `char::is_whitespace` is a function of the character alone; its
/// answer is named by [`white_space`].
pub assume_specification[ char::is_whitespace ](c: char) -> (b: bool)
    ensures
        b == white_space(c),
;

/// The join of two well-formed chunks falls between two characters.
pub proof fn lemma_join_is_char_boundary(a: Seq<u8>, b: Seq<u8>)
    requires
        valid_utf8(a),
        valid_utf8(b),
    ensures
        valid_utf8(a + b),
        is_char_boundary(a + b, a.len() as int),
    decreases a.len(),
{
    valid_utf8_concat(a, b);
    if a.len() > 0 {
        assert(length_of_first_scalar(a + b) == length_of_first_scalar(a));
        assert(pop_first_scalar(a + b) =~= pop_first_scalar(a) + b);
        lemma_join_is_char_boundary(pop_first_scalar(a), b);
    }
}

/// Well-formed chunks decode piece by piece: the text of two of them
/// joined is the text of the first followed by the text of the second.
pub proof fn lemma_decoded_concat(a: Seq<u8>, b: Seq<u8>)
    requires
        valid_utf8(a),
        valid_utf8(b),
    ensures
        decoded(a + b) == decoded(a) + decoded(b),
{
    lemma_join_is_char_boundary(a, b);
    decode_utf8_split(a + b, a.len() as int);
    assert((a + b).subrange(0, a.len() as int) =~= a);
    assert((a + b).subrange(a.len() as int, (a + b).len() as int) =~= b);
}

} // verus!
