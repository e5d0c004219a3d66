//! Byte positions in UTF-8 text, and slices taken at them.
//!
//! Source text is a `&str`; the scanners walk over its bytes. A token's text is
//! cut out of the source between two positions, and `str` allows a cut only
//! where a character starts or ends. The lemmas here show that the positions
//! the scanners stop at are such positions.

use vstd::prelude::*;
use vstd::string::StringSliceAdditionalSpecFns;
use vstd::utf8::{
    encode_utf8_valid_utf8, is_char_boundary, is_char_boundary_iff_not_is_continuation_byte,
    is_char_boundary_start_end_of_seq, length_of_first_scalar, pop_first_scalar, valid_utf8,
    valid_utf8_split,
};

verus! {

/// Whether `text` holds exactly the bytes of `word` from position `pos` on.
pub open spec fn has_prefix_at(text: Seq<u8>, pos: int, word: Seq<u8>) -> bool {
    &&& 0 <= pos
    &&& pos + word.len() <= text.len()
    &&& text.subrange(pos, pos + word.len()) == word
}

/// The position just behind the character that starts at `pos`.
pub open spec fn next_boundary(text: Seq<u8>, pos: int) -> int {
    pos + length_of_first_scalar(text.subrange(pos, text.len() as int))
}

/// Behind a character comes a boundary, within the text.
pub proof fn lemma_next_boundary(text: Seq<u8>, pos: int)
    requires
        valid_utf8(text),
        is_char_boundary(text, pos),
        0 <= pos < text.len(),
    ensures
        pos < next_boundary(text, pos) <= text.len(),
        is_char_boundary(text, next_boundary(text, pos)),
{
    let rest = text.subrange(pos, text.len() as int);
    valid_utf8_split(text, pos);
    let width = length_of_first_scalar(rest);
    assert(1 <= width <= rest.len());
    assert(valid_utf8(pop_first_scalar(rest)));
    assert(is_char_boundary(rest, width)) by {
        reveal_with_fuel(is_char_boundary, 2);
    }
    if pos + width == text.len() {
        is_char_boundary_start_end_of_seq(text);
    } else {
        is_char_boundary_iff_not_is_continuation_byte(rest, width);
        is_char_boundary_iff_not_is_continuation_byte(text, pos + width);
        assert(rest[width] == text[pos + width]);
    }
}

/// An ASCII byte is a character of its own: there is a boundary in front of
/// it and one behind it.
pub proof fn lemma_ascii_boundaries(text: Seq<u8>, pos: int)
    requires
        valid_utf8(text),
        0 <= pos < text.len(),
        text[pos] < 0x80,
    ensures
        is_char_boundary(text, pos),
        is_char_boundary(text, pos + 1),
{
    is_char_boundary_iff_not_is_continuation_byte(text, pos);
    lemma_next_boundary(text, pos);
    assert(text.subrange(pos, text.len() as int)[0] == text[pos]);
}

/// A byte that is no continuation byte starts a character.
pub proof fn lemma_leading_byte_boundary(text: Seq<u8>, pos: int)
    requires
        valid_utf8(text),
        0 <= pos < text.len(),
        !(0x80 <= text[pos] <= 0xBF),
    ensures
        is_char_boundary(text, pos),
{
    is_char_boundary_iff_not_is_continuation_byte(text, pos);
}

/// Where well-formed text occurs inside well-formed text and starts at a
/// boundary, it ends at one.
pub proof fn lemma_prefix_end_boundary(text: Seq<u8>, pos: int, word: Seq<u8>)
    requires
        valid_utf8(text),
        valid_utf8(word),
        is_char_boundary(text, pos),
        has_prefix_at(text, pos, word),
    ensures
        is_char_boundary(text, pos + word.len()),
    decreases word.len(),
{
    if word.len() > 0 {
        let rest = text.subrange(pos, text.len() as int);
        assert(rest[0] == text[pos]);
        assert(word[0] == text.subrange(pos, pos + word.len())[0]);
        let width = length_of_first_scalar(word);
        assert(width == length_of_first_scalar(rest));
        assert(1 <= width <= word.len());
        lemma_next_boundary(text, pos);
        let tail = pop_first_scalar(word);
        assert(text.subrange(pos + width, pos + width + tail.len()) =~= tail) by {
            assert forall|i: int| 0 <= i < tail.len() implies text[pos + width + i] == tail[i] by {
                assert(text.subrange(pos, pos + word.len())[width + i] == word[width + i]);
            }
        }
        lemma_prefix_end_boundary(text, pos + width, tail);
    }
}

/// The bytes of a `str` are well-formed UTF-8, and its two ends are
/// boundaries.
pub proof fn lemma_str_bytes(text: &str)
    ensures
        valid_utf8(text.spec_bytes()),
        is_char_boundary(text.spec_bytes(), 0),
        is_char_boundary(text.spec_bytes(), text.spec_bytes().len() as int),
{
    encode_utf8_valid_utf8(text@);
    is_char_boundary_start_end_of_seq(text.spec_bytes());
}

/// Whether `start..end` is a range at which `text` may be sliced.
pub open spec fn is_span(text: Seq<u8>, start: int, end: int) -> bool {
    &&& 0 <= start <= end <= text.len()
    &&& is_char_boundary(text, start)
    &&& is_char_boundary(text, end)
}

/// The part of `src` between two boundaries, as `&src[start..end]` gives it.
pub fn slice<'a>(src: &'a str, start: usize, end: usize) -> (part: &'a str)
    requires
        is_span(src.spec_bytes(), start as int, end as int),
    ensures
        part.spec_bytes() == src.spec_bytes().subrange(start as int, end as int),
{
    let (head, _) = src.split_at(end);
    proof {
        let all = src.spec_bytes();
        let front = head.spec_bytes();
        lemma_str_bytes(src);
        lemma_str_bytes(head);
        if start < end {
            is_char_boundary_iff_not_is_continuation_byte(all, start as int);
            is_char_boundary_iff_not_is_continuation_byte(front, start as int);
        }
    }
    let (_, part) = head.split_at(start);
    part
}

} // verus!
