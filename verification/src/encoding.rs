//! How positions in a text relate to positions in its UTF-8 encoding.
//!
//! The executable code searches and cuts the bytes of a string; the contracts
//! speak of its characters. The lemmas here carry a cut from one to the other.

use crate::pattern::{first_occurs_at, occurs, occurs_at};
use vstd::prelude::*;
use vstd::utf8::*;

verus! {

/// The encoding of a concatenation is the concatenation of the encodings.
pub proof fn lemma_encode_concat(a: Seq<char>, b: Seq<char>)
    ensures
        encode_utf8(a + b) == encode_utf8(a) + encode_utf8(b),
    decreases a.len(),
{
    if a.len() == 0 {
        assert(a + b =~= b);
        assert(encode_utf8(a) + encode_utf8(b) =~= encode_utf8(b));
    } else {
        assert((a + b).drop_first() =~= a.drop_first() + b);
        lemma_encode_concat(a.drop_first(), b);
        let head = encode_scalar(a[0] as u32);
        assert(head + (encode_utf8(a.drop_first()) + encode_utf8(b)) =~= (head + encode_utf8(
            a.drop_first(),
        )) + encode_utf8(b));
    }
}

/// Each character takes at least one byte.
pub proof fn lemma_encode_len(a: Seq<char>)
    ensures
        a.len() <= encode_utf8(a).len(),
    decreases a.len(),
{
    if a.len() > 0 {
        lemma_encode_len(a.drop_first());
    }
}

/// A longer prefix of a text has a longer encoding.
pub proof fn lemma_prefix_encoding_grows(text: Seq<char>, j: int, k: int)
    requires
        0 <= j < k <= text.len(),
    ensures
        encode_utf8(text.subrange(0, j)).len() < encode_utf8(text.subrange(0, k)).len(),
{
    let gap = text.subrange(j, k);
    assert(text.subrange(0, k) =~= text.subrange(0, j) + gap);
    lemma_encode_concat(text.subrange(0, j), gap);
    lemma_encode_len(gap);
}

/// Where a pattern stands in a text, its encoding stands in the text's
/// encoding, behind the encoding of what precedes it.
pub proof fn lemma_occurrence_encoded(text: Seq<char>, pat: Seq<char>, at: int)
    requires
        occurs_at(text, pat, at),
    ensures
        occurs_at(
            encode_utf8(text),
            encode_utf8(pat),
            encode_utf8(text.subrange(0, at)).len() as int,
        ),
{
    let before = text.subrange(0, at);
    let after = text.subrange(at + pat.len(), text.len() as int);
    assert(text =~= (before + pat) + after);
    lemma_encode_concat(before + pat, after);
    lemma_encode_concat(before, pat);
    let b = encode_utf8(before);
    let m = encode_utf8(pat);
    assert(encode_utf8(text).subrange(b.len() as int, (b.len() + m.len()) as int) =~= m);
}

/// A text whose encoding does not hold a pattern's encoding does not hold the pattern.
pub proof fn lemma_absent_when_encoding_absent(text: Seq<char>, pat: Seq<char>)
    requires
        !occurs(encode_utf8(text), encode_utf8(pat)),
    ensures
        !occurs(text, pat),
{
    if occurs(text, pat) {
        let at = choose|at: int| occurs_at(text, pat, at);
        lemma_occurrence_encoded(text, pat, at);
    }
}

/// Where valid UTF-8 begins with a shorter piece of valid UTF-8, the end of
/// that piece is a character boundary.
pub proof fn lemma_boundary_after_prefix(bytes: Seq<u8>, prefix: Seq<u8>)
    requires
        valid_utf8(bytes),
        valid_utf8(prefix),
        prefix.len() <= bytes.len(),
        bytes.subrange(0, prefix.len() as int) == prefix,
    ensures
        is_char_boundary(bytes, prefix.len() as int),
    decreases prefix.len(),
{
    if prefix.len() > 0 {
        let width = length_of_first_scalar(prefix);
        assert(prefix[0] == bytes.subrange(0, prefix.len() as int)[0]);
        assert(width == length_of_first_scalar(bytes));
        let rest = pop_first_scalar(bytes);
        let shorter = pop_first_scalar(prefix);
        assert(rest.subrange(0, shorter.len() as int) =~= shorter) by {
            assert forall|i: int| 0 <= i < shorter.len() implies rest[i] == shorter[i] by {
                assert(bytes.subrange(0, prefix.len() as int)[i + width] == prefix[i + width]);
            }
        }
        lemma_boundary_after_prefix(rest, shorter);
    }
}

/// The encoding of a text that is not empty begins with a byte that continues
/// no character.
pub proof fn lemma_encoding_begins_character(text: Seq<char>)
    requires
        text.len() > 0,
    ensures
        encode_utf8(text).len() > 0,
        !is_continuation_byte(encode_utf8(text)[0]),
{
    encode_utf8_first_scalar(text);
}

/// What a cut of the encoding at the first occurrence of an encoded pattern
/// means for the text: both ends of the occurrence are character boundaries,
/// the text is what the bytes before decode to, then the pattern, then what
/// the bytes behind decode to, and the pattern does not stand earlier in the
/// text.
pub proof fn lemma_cut_at_encoded_pattern(text: Seq<char>, pat: Seq<char>, at: int)
    requires
        first_occurs_at(encode_utf8(text), encode_utf8(pat), at),
    ensures
        is_char_boundary(encode_utf8(text), at),
        valid_utf8(encode_utf8(text).subrange(0, at)),
        valid_utf8(encode_utf8(text).subrange(at, encode_utf8(text).len() as int)),
        is_char_boundary(
            encode_utf8(text).subrange(at, encode_utf8(text).len() as int),
            encode_utf8(pat).len() as int,
        ),
        valid_utf8(
            encode_utf8(text).subrange(
                at + encode_utf8(pat).len(),
                encode_utf8(text).len() as int,
            ),
        ),
        text == decode_utf8(encode_utf8(text).subrange(0, at)) + pat + decode_utf8(
            encode_utf8(text).subrange(
                at + encode_utf8(pat).len(),
                encode_utf8(text).len() as int,
            ),
        ),
        first_occurs_at(text, pat, decode_utf8(encode_utf8(text).subrange(0, at)).len() as int),
{
    let bytes = encode_utf8(text);
    let needle = encode_utf8(pat);
    let width = needle.len() as int;
    let total = bytes.len() as int;
    encode_utf8_valid_utf8(text);
    encode_utf8_valid_utf8(pat);
    encode_utf8_decode_utf8(text);
    encode_utf8_decode_utf8(pat);
    let window = bytes.subrange(at, at + width);
    // The occurrence starts on a boundary.
    if pat.len() == 0 {
        assert(occurs_at(bytes, needle, 0)) by {
            assert(bytes.subrange(0, 0) =~= needle);
        }
        assert(at == 0);
    } else {
        lemma_encoding_begins_character(pat);
        assert(window[0] == bytes[at]);
        is_char_boundary_iff_not_is_continuation_byte(bytes, at);
    }
    valid_utf8_split(bytes, at);
    decode_utf8_split(bytes, at);
    let front = bytes.subrange(0, at);
    let tail = bytes.subrange(at, total);
    // It ends on one.
    assert(tail.subrange(0, width) =~= window);
    lemma_boundary_after_prefix(tail, needle);
    valid_utf8_split(tail, width);
    decode_utf8_split(tail, width);
    assert(tail.subrange(width, tail.len() as int) =~= bytes.subrange(at + width, total));
    let head = decode_utf8(front);
    let rest = decode_utf8(bytes.subrange(at + width, total));
    assert(text =~= head + pat + rest);
    // The pattern does not stand earlier.
    let cut = head.len() as int;
    assert(text.subrange(cut, cut + pat.len()) =~= pat);
    decode_utf8_encode_utf8(front);
    assert(text.subrange(0, cut) =~= head);
    assert forall|k: int| 0 <= k < cut implies !occurs_at(text, pat, k) by {
        if occurs_at(text, pat, k) {
            lemma_occurrence_encoded(text, pat, k);
            lemma_prefix_encoding_grows(text, k, cut);
            let q = encode_utf8(text.subrange(0, k)).len() as int;
            assert(q < at);
            assert(occurs_at(bytes, needle, q));
        }
    }
}

} // verus!
