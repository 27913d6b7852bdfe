//! How ASCII characters show in UTF-8: each as one byte of its own value,
//! and never inside the encoding of another character. What holds of the
//! ASCII characters of a text therefore holds of the ASCII bytes of its
//! encoding.

use vstd::prelude::*;
use vstd::utf8::*;
use crate::text::{lemma_pair_position_is, pair_at, pair_position};

verus! {

/// Whether `b` occurs nowhere in `s`.
pub open spec fn free_of(s: Seq<u8>, b: u8) -> bool {
    forall|i: int| 0 <= i < s.len() ==> s[i] != b
}

/// Whether the character `c` occurs nowhere in `s`.
pub open spec fn lacks(s: Seq<char>, c: char) -> bool {
    forall|i: int| 0 <= i < s.len() ==> s[i] != c
}

/// Whether `a` stands at index `i` of `s` with `b` directly after it.
pub open spec fn char_pair_at(s: Seq<char>, i: int, a: char, b: char) -> bool {
    0 <= i && i + 1 < s.len() && s[i] == a && s[i + 1] == b
}

/// Whether `a` is nowhere in `s` directly followed by `b`.
pub open spec fn lacks_pair(s: Seq<char>, a: char, b: char) -> bool {
    forall|i: int| !char_pair_at(s, i, a, b)
}

/// Whether `c` is an ASCII character.
pub open spec fn is_ascii_char(c: char) -> bool {
    (c as u32) < 0x80
}

/// The encoding of an ASCII character is one byte, the character's value;
/// the encoding of any other character has bytes from 0x80 on only.
pub proof fn lemma_scalar_bytes(c: char)
    ensures
        encode_scalar(c as u32).len() >= 1,
        is_ascii_char(c) ==> encode_scalar(c as u32) == seq![c as u8],
        !is_ascii_char(c) ==> forall|k: int|
            0 <= k < encode_scalar(c as u32).len() ==> #[trigger] encode_scalar(c as u32)[k]
                >= 0x80,
{
    let v = c as u32;
    assert(v <= 0x7f ==> (v & 0x7f) as u8 == v as u8) by (bit_vector);
    assert(0xC0u8 | (((v >> 6) & 0x1F) as u8) >= 0x80) by (bit_vector);
    assert(0xE0u8 | (((v >> 12) & 0x0F) as u8) >= 0x80) by (bit_vector);
    assert(0xF0u8 | (((v >> 18) & 0x7) as u8) >= 0x80) by (bit_vector);
    assert(0x80u8 | ((v & 0x3F) as u8) >= 0x80) by (bit_vector);
    assert(0x80u8 | (((v >> 6) & 0x3F) as u8) >= 0x80) by (bit_vector);
    assert(0x80u8 | (((v >> 12) & 0x3F) as u8) >= 0x80) by (bit_vector);
    if is_ascii_char(c) {
        assert(encode_scalar(v) =~= seq![c as u8]);
    }
}

/// ASCII characters with the same byte value are the same character.
pub proof fn lemma_ascii_char_by_byte(x: char, y: char)
    requires
        is_ascii_char(x),
        is_ascii_char(y),
        x as u8 == y as u8,
    ensures
        x == y,
{
    char_u32_cast(x, x as u32);
    char_u32_cast(y, y as u32);
}

/// An ASCII byte at the start of an encoding is the first character.
pub proof fn lemma_first_byte(s: Seq<char>)
    requires
        encode_utf8(s).len() > 0,
        encode_utf8(s)[0] < 0x80,
    ensures
        s.len() > 0,
        is_ascii_char(s[0]),
        s[0] as u8 == encode_utf8(s)[0],
{
    lemma_scalar_bytes(s[0]);
    assert(encode_utf8(s)[0] == encode_scalar(s[0] as u32)[0]);
}

/// An ASCII character that does not occur in a text does not occur, as a
/// byte, in the encoding of the text.
pub proof fn lemma_encoding_lacks(s: Seq<char>, c: char)
    requires
        is_ascii_char(c),
        lacks(s, c),
    ensures
        free_of(encode_utf8(s), c as u8),
    decreases s.len(),
{
    if s.len() > 0 {
        let first = encode_scalar(s[0] as u32);
        let rest = s.drop_first();
        assert forall|i: int| 0 <= i < rest.len() implies rest[i] != c by {
            assert(rest[i] == s[i + 1]);
        }
        lemma_encoding_lacks(rest, c);
        lemma_scalar_bytes(s[0]);
        if is_ascii_char(s[0]) && s[0] as u8 == c as u8 {
            lemma_ascii_char_by_byte(s[0], c);
        }
        assert forall|j: int| 0 <= j < encode_utf8(s).len() implies encode_utf8(s)[j] != c as u8 by {
            if j < first.len() {
                assert(encode_utf8(s)[j] == first[j]);
            } else {
                assert(encode_utf8(s)[j] == encode_utf8(rest)[j - first.len()]);
            }
        }
    }
}

/// Where no `a` is directly followed by `b` in a text, no byte `a` is
/// directly followed by byte `b` at index `j` of its encoding.
pub proof fn lemma_encoding_lacks_pair_at(s: Seq<char>, a: char, b: char, j: int)
    requires
        is_ascii_char(a),
        is_ascii_char(b),
        lacks_pair(s, a, b),
    ensures
        !pair_at(encode_utf8(s), j, a as u8, b as u8),
    decreases s.len(),
{
    if s.len() > 0 && 0 <= j {
        let bytes = encode_utf8(s);
        let first = encode_scalar(s[0] as u32);
        let rest = s.drop_first();
        let k = first.len() as int;
        lemma_scalar_bytes(s[0]);
        assert forall|i: int| !char_pair_at(rest, i, a, b) by {
            assert(char_pair_at(rest, i, a, b) ==> char_pair_at(s, i + 1, a, b));
        }
        if j >= k {
            lemma_encoding_lacks_pair_at(rest, a, b, j - k);
            if j + 1 < bytes.len() {
                assert(bytes[j] == encode_utf8(rest)[j - k]);
                assert(bytes[j + 1] == encode_utf8(rest)[j + 1 - k]);
            }
        } else if j + 1 < bytes.len() {
            assert(bytes[j] == first[j]);
            if is_ascii_char(s[0]) && bytes[j] == a as u8 && bytes[j + 1] == b as u8 {
                assert(k == 1 && j == 0);
                assert(bytes[1] == encode_utf8(rest)[0]);
                lemma_ascii_char_by_byte(s[0], a);
                lemma_first_byte(rest);
                lemma_ascii_char_by_byte(rest[0], b);
                assert(rest[0] == s[1]);
                assert(char_pair_at(s, 0, a, b));
            }
        }
    }
}

/// Where no `a` is directly followed by `b` in a text, the same holds, in
/// bytes, of its encoding.
pub proof fn lemma_encoding_lacks_pair(s: Seq<char>, a: char, b: char)
    requires
        is_ascii_char(a),
        is_ascii_char(b),
        lacks_pair(s, a, b),
    ensures
        pair_position(encode_utf8(s), a as u8, b as u8) == encode_utf8(s).len(),
{
    let bytes = encode_utf8(s);
    let first = a as u8;
    let second = b as u8;
    assert forall|j: int| 0 <= j < bytes.len() implies !pair_at(bytes, j, first, second) by {
        lemma_encoding_lacks_pair_at(s, a, b, j);
    }
    lemma_pair_position_is(bytes, first, second, bytes.len() as int);
}

} // verus!
