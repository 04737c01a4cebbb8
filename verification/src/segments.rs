//! Stretches of a text that are named by byte offsets.

use vstd::prelude::*;
use vstd::utf8::*;

verus! {

/// The text that the bytes `from..to` of an encoded text spell.
pub open spec fn text_between(bytes: Seq<u8>, from: int, to: int) -> Seq<char> {
    decode_utf8(bytes.subrange(from, to))
}

/// Encoding keeps concatenation.
pub proof fn lemma_encode_concat(a: Seq<char>, b: Seq<char>)
    ensures
        encode_utf8(a + b) == encode_utf8(a) + encode_utf8(b),
    decreases a.len(),
{
    if a.len() == 0 {
        assert(a + b =~= b);
        assert(encode_utf8(a) + encode_utf8(b) =~= encode_utf8(b));
    } else {
        assert((a + b).drop_first() =~= a.drop_first() + b);
        lemma_encode_concat(a.drop_first(), b);
        assert(encode_scalar(a[0] as u32) + (encode_utf8(a.drop_first()) + encode_utf8(b)) =~= (
        encode_scalar(a[0] as u32) + encode_utf8(a.drop_first())) + encode_utf8(b));
    }
}

/// Decoding keeps concatenation.
pub proof fn lemma_decode_concat(a: Seq<u8>, b: Seq<u8>)
    requires
        valid_utf8(a),
        valid_utf8(b),
    ensures
        valid_utf8(a + b),
        decode_utf8(a + b) == decode_utf8(a) + decode_utf8(b),
{
    valid_utf8_concat(a, b);
    lemma_encode_concat(decode_utf8(a), decode_utf8(b));
    decode_utf8_encode_utf8(a);
    decode_utf8_encode_utf8(b);
    encode_utf8_decode_utf8(decode_utf8(a) + decode_utf8(b));
}

/// Beside an ASCII byte of a valid text a character begins, and after it the
/// next one.
pub proof fn lemma_ascii_boundary(bytes: Seq<u8>, i: int)
    requires
        valid_utf8(bytes),
        0 <= i < bytes.len(),
        is_leading_byte_width_1(bytes[i]),
    ensures
        is_char_boundary(bytes, i),
        is_char_boundary(bytes, i + 1),
    decreases bytes.len(),
{
    is_char_boundary_iff_is_leading_byte(bytes, i);
    let n = length_of_first_scalar(bytes);
    let rest = pop_first_scalar(bytes);
    if i < n {
        reveal_with_fuel(is_char_boundary, 2);
    } else {
        lemma_ascii_boundary(rest, i - n);
        is_char_boundary_iff_is_leading_byte(rest, i - n);
    }
}

/// What begins and ends at character boundaries is a text.
pub proof fn lemma_subrange_valid(bytes: Seq<u8>, from: int, to: int)
    requires
        valid_utf8(bytes),
        from <= to,
        is_char_boundary(bytes, from),
        is_char_boundary(bytes, to),
    ensures
        0 <= from <= to <= bytes.len(),
        valid_utf8(bytes.subrange(from, to)),
        is_char_boundary(bytes.subrange(from, bytes.len() as int), to - from),
{
    let tail = bytes.subrange(from, bytes.len() as int);
    valid_utf8_split(bytes, from);
    if to < bytes.len() {
        is_char_boundary_iff_not_is_continuation_byte(bytes, to);
        assert(tail[to - from] == bytes[to]);
        is_char_boundary_iff_not_is_continuation_byte(tail, to - from);
    } else {
        is_char_boundary_start_end_of_seq(tail);
    }
    valid_utf8_split(tail, to - from);
    assert(tail.subrange(0, to - from) =~= bytes.subrange(from, to));
}

/// Adjacent stretches spell one after the other.
pub proof fn lemma_text_between_concat(bytes: Seq<u8>, from: int, mid: int, to: int)
    requires
        valid_utf8(bytes),
        from <= mid <= to,
        is_char_boundary(bytes, from),
        is_char_boundary(bytes, mid),
        is_char_boundary(bytes, to),
    ensures
        text_between(bytes, from, to) == text_between(bytes, from, mid) + text_between(
            bytes,
            mid,
            to,
        ),
{
    lemma_subrange_valid(bytes, from, mid);
    lemma_subrange_valid(bytes, mid, to);
    lemma_decode_concat(bytes.subrange(from, mid), bytes.subrange(mid, to));
    assert(bytes.subrange(from, mid) + bytes.subrange(mid, to) =~= bytes.subrange(from, to));
}

/// The whole of an encoded text spells the text.
pub proof fn lemma_text_between_whole(text: Seq<char>)
    ensures
        text_between(encode_utf8(text), 0, encode_utf8(text).len() as int) == text,
        valid_utf8(encode_utf8(text)),
        is_char_boundary(encode_utf8(text), 0),
        is_char_boundary(encode_utf8(text), encode_utf8(text).len() as int),
{
    let bytes = encode_utf8(text);
    encode_utf8_valid_utf8(text);
    encode_utf8_decode_utf8(text);
    is_char_boundary_start_end_of_seq(bytes);
    assert(bytes.subrange(0, bytes.len() as int) =~= bytes);
}

/// An ASCII text is encoded byte for character.
pub proof fn lemma_ascii_text_between(bytes: Seq<u8>, from: int, to: int, text: Seq<char>)
    requires
        0 <= from <= to <= bytes.len(),
        text.len() == to - from,
        is_ascii_chars(text),
        forall|i: int| 0 <= i < text.len() ==> bytes[from + i] == #[trigger] text[i] as u8,
    ensures
        text_between(bytes, from, to) == text,
{
    is_ascii_chars_encode_utf8(text);
    assert(encode_utf8(text) =~= bytes.subrange(from, to));
    encode_utf8_decode_utf8(text);
}

/// The byte of an ASCII character of a text stands in the encoding.
pub proof fn lemma_ascii_char_encoded(text: Seq<char>, i: int, c: char) -> (at: int)
    requires
        0 <= i < text.len(),
        text[i] == c,
        c <= '\u{7f}',
    ensures
        0 <= at < encode_utf8(text).len(),
        encode_utf8(text)[at] == c as u8,
{
    let head = text.take(i);
    let here = seq![c];
    let tail = text.skip(i + 1);
    assert(head + here + tail =~= text);
    lemma_encode_concat(head + here, tail);
    lemma_encode_concat(head, here);
    is_ascii_chars_encode_utf8(here);
    assert(encode_utf8(here)[0] == c as u8);
    encode_utf8(head).len() as int
}

/// An ASCII character is encoded as its one byte; no byte of another character is
/// an ASCII byte.
pub proof fn lemma_scalar_bytes(c: char)
    ensures
        c <= '\u{7f}' ==> encode_scalar(c as u32) == seq![c as u8] && (c as u8) as char == c,
        c > '\u{7f}' ==> forall|k: int|
            0 <= k < encode_scalar(c as u32).len() ==> #[trigger] encode_scalar(c as u32)[k]
                >= 0x80,
        encode_scalar(c as u32).len() > 0,
{
    let u = c as u32;
    char_is_scalar(c);
    if c <= '\u{7f}' {
        assert(u as u8 == leading_byte_width_1(u)) by (bit_vector)
            requires
                has_width_1_encoding(u),
        ;
        assert(encode_scalar(u) =~= seq![c as u8]);
    } else {
        assert(0xC0u8 | ((u >> 6) & 0x1F) as u8 >= 0x80 && 0xE0u8 | ((u >> 12) & 0x0F) as u8
            >= 0x80 && 0xF0u8 | ((u >> 18) & 0x7) as u8 >= 0x80) by (bit_vector);
        assert(0x80u8 | (u & 0x3F) as u8 >= 0x80 && 0x80u8 | ((u >> 6) & 0x3F) as u8 >= 0x80
            && 0x80u8 | ((u >> 12) & 0x3F) as u8 >= 0x80) by (bit_vector);
    }
}

/// An ASCII byte in an encoding is that of a character of the text.
pub proof fn lemma_ascii_byte_decoded(text: Seq<char>, k: int) -> (i: int)
    requires
        0 <= k < encode_utf8(text).len(),
        encode_utf8(text)[k] < 0x80,
    ensures
        0 <= i < text.len(),
        text[i] == encode_utf8(text)[k] as char,
    decreases text.len(),
{
    let first = encode_scalar(text[0] as u32);
    let rest = text.drop_first();
    lemma_scalar_bytes(text[0]);
    if k < first.len() {
        assert(encode_utf8(text)[k] == first[k]);
        0
    } else {
        assert(encode_utf8(text)[k] == encode_utf8(rest)[k - first.len()]);
        lemma_ascii_byte_decoded(rest, k - first.len()) + 1
    }
}

} // verus!
