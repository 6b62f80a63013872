//! How positions in a text relate to positions in its UTF-8 bytes.
//!
//! The escaper walks a string by character but cuts it by byte offset.
//! The lemmas here say where a character starts among the bytes, that
//! such an offset is a place where the string may be cut, and that the
//! bytes between two such offsets are the characters between them.

use vstd::prelude::*;
use vstd::utf8::*;
use crate::entity::is_reserved;
use crate::model::has_reserved;

verus! {

/// The number of bytes that the first `k` characters of `text` take.
pub open spec fn byte_offset(text: Seq<char>, k: int) -> nat {
    encode_utf8(text.take(k)).len()
}

/// The number of bytes that one character takes.
pub open spec fn utf8_width(c: char) -> nat {
    encode_scalar(c as u32).len()
}

/// Encoding distributes over concatenation.
pub proof fn lemma_encode_concat(a: Seq<char>, b: Seq<char>)
    ensures
        encode_utf8(a + b) == encode_utf8(a) + encode_utf8(b),
    decreases a.len(),
{
    if a.len() > 0 {
        lemma_encode_concat(a.drop_first(), b);
        assert((a + b).drop_first() =~= a.drop_first() + b);
    }
}

/// A single character encodes to its own scalar encoding.
pub proof fn lemma_encode_single(c: char)
    ensures
        encode_utf8(seq![c]) == encode_scalar(c as u32),
        1 <= utf8_width(c) <= 4,
{
    assert(seq![c].drop_first() =~= Seq::<char>::empty());
    assert(encode_utf8(Seq::<char>::empty()) =~= Seq::<u8>::empty());
}

/// Two texts with the same bytes are the same text.
pub proof fn lemma_encode_injective(a: Seq<char>, b: Seq<char>)
    requires
        encode_utf8(a) == encode_utf8(b),
    ensures
        a == b,
{
    encode_utf8_decode_utf8(a);
    encode_utf8_decode_utf8(b);
}

/// The offset of the character after `k` lies one character's width
/// further, and no offset lies beyond the end of the bytes.
pub proof fn lemma_byte_offset_step(text: Seq<char>, k: int)
    requires
        0 <= k < text.len(),
    ensures
        byte_offset(text, k + 1) == byte_offset(text, k) + utf8_width(text[k]),
        byte_offset(text, k + 1) <= encode_utf8(text).len(),
        encode_utf8(text)[byte_offset(text, k) as int] == encode_scalar(text[k] as u32)[0],
{
    let head = text.take(k);
    let one = seq![text[k]];
    let tail = text.skip(k + 1);
    assert(text.take(k + 1) =~= head + one);
    assert(text =~= text.take(k + 1) + tail);
    lemma_encode_concat(head, one);
    lemma_encode_concat(text.take(k + 1), tail);
    lemma_encode_single(text[k]);
}

/// Offsets grow with the character index, from 0 to the number of bytes.
pub proof fn lemma_byte_offset_monotone(text: Seq<char>, i: int, j: int)
    requires
        0 <= i <= j <= text.len(),
    ensures
        byte_offset(text, i) <= byte_offset(text, j) <= encode_utf8(text).len(),
        byte_offset(text, 0) == 0,
        byte_offset(text, text.len() as int) == encode_utf8(text).len(),
        i < j ==> byte_offset(text, i) < byte_offset(text, j),
{
    lemma_bytes_between(text, i, j);
    assert(text.take(text.len() as int) =~= text);
}

/// The bytes between the offsets of two character indices are the
/// encoding of the characters between the indices.
pub proof fn lemma_bytes_between(text: Seq<char>, i: int, j: int)
    requires
        0 <= i <= j <= text.len(),
    ensures
        byte_offset(text, i) + encode_utf8(text.subrange(i, j)).len() == byte_offset(text, j),
        byte_offset(text, j) <= encode_utf8(text).len(),
        encode_utf8(text).subrange(byte_offset(text, i) as int, byte_offset(text, j) as int)
            == encode_utf8(text.subrange(i, j)),
{
    let head = text.take(i);
    let run = text.subrange(i, j);
    let tail = text.skip(j);
    assert(text.take(j) =~= head + run);
    assert(text =~= text.take(j) + tail);
    lemma_encode_concat(head, run);
    lemma_encode_concat(text.take(j), tail);
    assert(encode_utf8(text).subrange(byte_offset(text, i) as int, byte_offset(text, j) as int)
        =~= encode_utf8(run));
}

/// A string may be cut at the offset of any of its characters, and at its end.
pub proof fn lemma_offset_is_char_boundary(text: Seq<char>, k: int)
    requires
        0 <= k <= text.len(),
    ensures
        is_char_boundary(encode_utf8(text), byte_offset(text, k) as int),
    decreases k,
{
    let bytes = encode_utf8(text);
    encode_utf8_valid_utf8(text);
    if k > 0 {
        let rest = text.drop_first();
        encode_utf8_first_scalar(text);
        lemma_offset_is_char_boundary(rest, k - 1);
        assert(pop_first_scalar(bytes) =~= encode_utf8(rest));
        assert(text.take(k).drop_first() =~= rest.take(k - 1));
    }
}

/// True for the bytes that encode the five reserved characters.
pub open spec fn is_reserved_byte(b: u8) -> bool {
    b == 0x22 || b == 0x26 || b == 0x27 || b == 0x3c || b == 0x3e
}

/// A scalar below 0x80 is encoded as the one byte of the same value.
proof fn lemma_narrow_byte(v: u32)
    by (bit_vector)
    requires
        v <= 0x7f,
    ensures
        leading_byte_width_1(v) == v,
{
}

/// Every byte in the encoding of a scalar from 0x80 up has its high bit set.
proof fn lemma_wide_bytes(v: u32)
    by (bit_vector)
    ensures
        leading_byte_width_2(v) >= 0x80,
        leading_byte_width_3(v) >= 0x80,
        leading_byte_width_4(v) >= 0x80,
        third_last_continuation_byte(v) >= 0x80,
        second_last_continuation_byte(v) >= 0x80,
        last_continuation_byte(v) >= 0x80,
{
}

/// A reserved character is one byte long, and that byte is reserved; a
/// reserved byte occurs in the encoding of reserved characters only.
pub proof fn lemma_reserved_scalar(c: char)
    ensures
        is_reserved(c) ==> utf8_width(c) == 1 && is_reserved_byte(encode_scalar(c as u32)[0]),
        forall|j: int|
            0 <= j < utf8_width(c) && is_reserved_byte(#[trigger] encode_scalar(c as u32)[j])
                ==> is_reserved(c),
{
    let v = c as u32;
    if v <= 0x7f {
        lemma_narrow_byte(v);
    } else {
        lemma_wide_bytes(v);
    }
}

/// The byte at the offset of a reserved character is a reserved byte.
pub proof fn lemma_reserved_byte_of_char(text: Seq<char>, k: int)
    requires
        0 <= k < text.len(),
        is_reserved(text[k]),
    ensures
        byte_offset(text, k) < encode_utf8(text).len(),
        is_reserved_byte(encode_utf8(text)[byte_offset(text, k) as int]),
{
    lemma_byte_offset_step(text, k);
    lemma_reserved_scalar(text[k]);
}

/// A reserved byte among the bytes of a text belongs to a reserved character.
pub proof fn lemma_reserved_char_of_byte(text: Seq<char>, j: int)
    requires
        0 <= j < encode_utf8(text).len(),
        is_reserved_byte(encode_utf8(text)[j]),
    ensures
        has_reserved(text),
    decreases text.len(),
{
    let first = encode_scalar(text[0] as u32);
    let rest = text.drop_first();
    if j < first.len() {
        lemma_reserved_scalar(text[0]);
    } else {
        lemma_reserved_char_of_byte(rest, j - first.len());
    }
}

} // verus!
