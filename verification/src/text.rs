//! Byte-level text primitives: searching for delimiters, splitting into
//! lines and tokens, and slicing `&str` values at ASCII delimiters.
//!
//! Text is handled as its UTF-8 bytes. Every delimiter of the request
//! grammar is an ASCII byte, and an ASCII byte never occurs inside the
//! encoding of another character, so cutting a string at such a byte always
//! falls on a character boundary.

use vstd::prelude::*;
use vstd::string::*;
use vstd::utf8::*;

verus! {

/// Line feed.
pub const LF: u8 = 0x0a;

/// Carriage return.
pub const CR: u8 = 0x0d;

/// Space.
pub const SP: u8 = 0x20;

/// Colon.
pub const COLON: u8 = 0x3a;

/// Index of the first occurrence of `b` in `s`, or `s.len()` when `b` does not occur.
pub open spec fn byte_position(s: Seq<u8>, b: u8) -> int
    decreases s.len(),
{
    if s.len() == 0 || s[0] == b {
        0
    } else {
        1 + byte_position(s.drop_first(), b)
    }
}

/// Whether `a` stands at index `j` of `s` with `b` directly after it.
pub open spec fn pair_at(s: Seq<u8>, j: int, a: u8, b: u8) -> bool {
    0 <= j && j + 1 < s.len() && s[j] == a && s[j + 1] == b
}

/// Index of the first place where `a` is directly followed by `b` in `s`,
/// or `s.len()` when there is no such place.
pub open spec fn pair_position(s: Seq<u8>, a: u8, b: u8) -> int
    decreases s.len(),
{
    if s.len() < 2 {
        s.len() as int
    } else if pair_at(s, 0, a, b) {
        0
    } else {
        1 + pair_position(s.drop_first(), a, b)
    }
}

/// The pieces of `s` between occurrences of `b`. There is always at least
/// one piece; adjacent delimiters give empty pieces.
pub open spec fn split_on(s: Seq<u8>, b: u8) -> Seq<Seq<u8>>
    decreases s.len(),
{
    let i = byte_position(s, b);
    if 0 <= i < s.len() {
        seq![s.take(i)] + split_on(s.skip(i + 1), b)
    } else {
        seq![s]
    }
}

/// `line` without one trailing carriage return, if it has one.
pub open spec fn strip_cr(line: Seq<u8>) -> Seq<u8> {
    if line.len() > 0 && line.last() == CR {
        line.drop_last()
    } else {
        line
    }
}

/// The first line of `text`: everything before the first line feed, less
/// one carriage return directly before it. Text without a line feed is
/// one line, taken as it stands.
pub open spec fn first_line(text: Seq<u8>) -> Seq<u8> {
    let i = byte_position(text, LF);
    if 0 <= i < text.len() {
        strip_cr(text.take(i))
    } else {
        text
    }
}

/// What follows the first line of `text` and its terminator.
pub open spec fn after_first_line(text: Seq<u8>) -> Seq<u8> {
    let i = byte_position(text, LF);
    if 0 <= i < text.len() {
        text.skip(i + 1)
    } else {
        Seq::empty()
    }
}

/// `byte_position` is in range, nothing before it is `b`, and it points at `b` unless it is the length.
pub proof fn lemma_byte_position(s: Seq<u8>, b: u8)
    ensures
        0 <= byte_position(s, b) <= s.len(),
        forall|j: int| 0 <= j < byte_position(s, b) ==> s[j] != b,
        byte_position(s, b) < s.len() ==> s[byte_position(s, b)] == b,
    decreases s.len(),
{
    if s.len() == 0 || s[0] == b {
    } else {
        let t = s.drop_first();
        lemma_byte_position(t, b);
        assert forall|j: int| 0 <= j < byte_position(s, b) implies s[j] != b by {
            if j > 0 {
                assert(s[j] == t[j - 1]);
            }
        }
    }
}

/// An index with no `b` before it, and `b` at it unless it is the length, is `byte_position`.
pub proof fn lemma_byte_position_is(s: Seq<u8>, b: u8, i: int)
    requires
        0 <= i <= s.len(),
        forall|j: int| 0 <= j < i ==> s[j] != b,
        i < s.len() ==> s[i] == b,
    ensures
        byte_position(s, b) == i,
    decreases s.len(),
{
    if i > 0 {
        let t = s.drop_first();
        assert forall|j: int| 0 <= j < i - 1 implies t[j] != b by {
            assert(t[j] == s[j + 1]);
        }
        lemma_byte_position_is(t, b, i - 1);
    }
}

/// `pair_position` is in range, no pair starts before it, and a pair starts at it unless it is the length.
pub proof fn lemma_pair_position(s: Seq<u8>, a: u8, b: u8)
    ensures
        0 <= pair_position(s, a, b) <= s.len(),
        forall|j: int| 0 <= j < pair_position(s, a, b) ==> !pair_at(s, j, a, b),
        pair_position(s, a, b) < s.len() ==> pair_at(s, pair_position(s, a, b), a, b),
    decreases s.len(),
{
    if s.len() < 2 {
    } else if pair_at(s, 0, a, b) {
    } else {
        let t = s.drop_first();
        lemma_pair_position(t, a, b);
        assert forall|j: int| 0 <= j < pair_position(s, a, b) implies !pair_at(s, j, a, b) by {
            if j > 0 {
                assert(pair_at(s, j, a, b) == pair_at(t, j - 1, a, b));
            }
        }
        assert(pair_position(s, a, b) < s.len() ==> pair_at(t, pair_position(t, a, b), a, b));
    }
}

/// An index with no pair before it, and a pair at it unless it is the length, is `pair_position`.
pub proof fn lemma_pair_position_is(s: Seq<u8>, a: u8, b: u8, i: int)
    requires
        0 <= i <= s.len(),
        forall|j: int| 0 <= j < i ==> !pair_at(s, j, a, b),
        i < s.len() ==> pair_at(s, i, a, b),
    ensures
        pair_position(s, a, b) == i,
    decreases s.len(),
{
    if s.len() < 2 {
    } else if i > 0 {
        let t = s.drop_first();
        assert forall|j: int| 0 <= j < i - 1 implies !pair_at(t, j, a, b) by {
            assert(pair_at(t, j, a, b) == pair_at(s, j + 1, a, b));
        }
        assert(i < s.len() ==> pair_at(t, i - 1, a, b) == pair_at(s, i, a, b));
        lemma_pair_position_is(t, a, b, i - 1);
    }
}

/// How `split_on` unfolds: the first piece ends at the first delimiter, and
/// the other pieces are those of what follows it.
pub proof fn lemma_split_on(s: Seq<u8>, b: u8)
    ensures
        split_on(s, b).len() >= 1,
        ({
            let i = byte_position(s, b);
            if 0 <= i < s.len() {
                &&& split_on(s, b)[0] == s.take(i)
                &&& split_on(s, b).len() == 1 + split_on(s.skip(i + 1), b).len()
                &&& forall|k: int|
                    1 <= k < split_on(s, b).len() ==> #[trigger] split_on(s, b)[k] == split_on(
                        s.skip(i + 1),
                        b,
                    )[k - 1]
            } else {
                split_on(s, b) == seq![s]
            }
        }),
    decreases s.len(),
{
    let i = byte_position(s, b);
    if 0 <= i < s.len() {
        lemma_split_on(s.skip(i + 1), b);
    }
}

/// The text after the first line is shorter than the text, unless the text is empty.
pub proof fn lemma_after_first_line_shorter(text: Seq<u8>)
    requires
        text.len() > 0,
    ensures
        after_first_line(text).len() < text.len(),
{
}

/// Finds the first occurrence of `b` in `bytes`; the length when there is none.
pub fn find_byte(bytes: &[u8], b: u8) -> (i: usize)
    ensures
        i == byte_position(bytes@, b),
{
    let mut i: usize = 0;
    while i < bytes.len() && bytes[i] != b
        invariant
            0 <= i <= bytes.len(),
            forall|j: int| 0 <= j < i ==> bytes@[j] != b,
        decreases bytes.len() - i,
    {
        i += 1;
    }
    proof {
        lemma_byte_position_is(bytes@, b, i as int);
    }
    i
}

/// Finds the first place in `bytes` where `a` is directly followed by `b`;
/// the length when there is none.
pub fn find_pair(bytes: &[u8], a: u8, b: u8) -> (i: usize)
    ensures
        i == pair_position(bytes@, a, b),
{
    let n: usize = bytes.len();
    let mut i: usize = 0;
    while i < n && !(n - i >= 2 && bytes[i] == a && bytes[i + 1] == b)
        invariant
            n == bytes.len(),
            0 <= i <= n,
            forall|j: int| 0 <= j < i ==> !pair_at(bytes@, j, a, b),
        decreases n - i,
    {
        i += 1;
    }
    proof {
        lemma_pair_position_is(bytes@, a, b, i as int);
    }
    i
}

/// The error type of `core::str::from_utf8`. Nothing is assumed of it: it
/// is told apart from success and dropped.
#[verifier::external_type_specification]
#[verifier::external_body]
pub struct ExUtf8Error(core::str::Utf8Error);

/// Assumed of `core::str::from_utf8`, not proved: it succeeds exactly on
/// well-formed UTF-8, and the string it returns holds the bytes it was
/// given.
pub assume_specification[ core::str::from_utf8 ](v: &[u8]) -> (r: Result<
    &str,
    core::str::Utf8Error,
>)
    ensures
        r is Ok <==> valid_utf8(v@),
        r matches Ok(s) ==> s.spec_bytes() == v@,
;

/// Whether two byte strings hold the same bytes.
pub fn same_bytes(a: &[u8], b: &[u8]) -> (r: bool)
    ensures
        r == (a@ == b@),
{
    if a.len() != b.len() {
        return false;
    }
    let mut i: usize = 0;
    while i < a.len()
        invariant
            a.len() == b.len(),
            0 <= i <= a.len(),
            forall|j: int| 0 <= j < i ==> a@[j] == b@[j],
        decreases a.len() - i,
    {
        if a[i] != b[i] {
            return false;
        }
        i += 1;
    }
    assert(a@ =~= b@);
    true
}

/// An ASCII byte of valid UTF-8 text starts a character, and the next character starts right after it.
pub proof fn lemma_ascii_boundaries(bytes: Seq<u8>, i: int)
    requires
        valid_utf8(bytes),
        0 <= i < bytes.len(),
        bytes[i] < 0x80,
    ensures
        is_char_boundary(bytes, i),
        is_char_boundary(bytes, i + 1),
{
    is_char_boundary_iff_not_is_continuation_byte(bytes, i);
    if i + 1 == bytes.len() {
        is_char_boundary_start_end_of_seq(bytes);
    } else {
        valid_utf8_split(bytes, i);
        let tail = bytes.subrange(i, bytes.len() as int);
        assert(tail[0] == bytes[i]);
        assert(length_of_first_scalar(tail) == 1);
        let after = pop_first_scalar(tail);
        assert(valid_utf8(after));
        assert(after[0] == bytes[i + 1]);
        assert(valid_first_scalar(after));
        assert(!is_continuation_byte(bytes[i + 1]));
        is_char_boundary_iff_not_is_continuation_byte(bytes, i + 1);
    }
}

/// Splits `s` around the ASCII byte at index `i`: what stands before it, and what stands after it.
pub fn split_around(s: &str, i: usize) -> (r: (&str, &str))
    requires
        i < s.spec_bytes().len(),
        s.spec_bytes()[i as int] < 0x80,
    ensures
        r.0.spec_bytes() == s.spec_bytes().take(i as int),
        r.1.spec_bytes() == s.spec_bytes().skip(i + 1),
{
    broadcast use encode_utf8_valid_utf8;

    proof {
        lemma_ascii_boundaries(s.spec_bytes(), i as int);
    }
    let (head, tail) = s.split_at(i);
    proof {
        assert(tail.spec_bytes()[0] == s.spec_bytes()[i as int]);
        lemma_ascii_boundaries(tail.spec_bytes(), 0);
    }
    let (_, rest) = tail.split_at(1);
    (head, rest)
}

/// Cuts `s` at the first occurrence of the ASCII byte `b`: what stands
/// before it, and what stands after it. Without an occurrence the first
/// part is all of `s` and there is no second part.
pub fn split_once(s: &str, b: u8) -> (r: (&str, Option<&str>))
    requires
        b < 0x80,
    ensures
        ({
            let bytes = s.spec_bytes();
            let i = byte_position(bytes, b);
            if 0 <= i < bytes.len() {
                &&& r.0.spec_bytes() == bytes.take(i)
                &&& r.1 matches Some(rest)
                &&& rest.spec_bytes() == bytes.skip(i + 1)
            } else {
                &&& r.0.spec_bytes() == bytes
                &&& r.1 is None
            }
        }),
{
    let bytes = s.as_bytes();
    let i: usize = find_byte(bytes, b);
    proof {
        lemma_byte_position(bytes@, b);
    }
    if i < bytes.len() {
        let (head, rest) = split_around(s, i);
        (head, Some(rest))
    } else {
        (s, None)
    }
}

/// Drops one trailing carriage return from `line`, if it has one.
pub fn trim_cr(line: &str) -> (r: &str)
    ensures
        r.spec_bytes() == strip_cr(line.spec_bytes()),
{
    broadcast use encode_utf8_valid_utf8;

    let bytes = line.as_bytes();
    let n: usize = bytes.len();
    if n > 0 && bytes[n - 1] == CR {
        proof {
            lemma_ascii_boundaries(bytes@, n - 1);
        }
        let (head, _) = line.split_at(n - 1);
        head
    } else {
        line
    }
}

/// Takes the first line off `text`: the line without its terminator, and
/// the text after it. A line ends at a line feed; a carriage return
/// directly before the line feed belongs to the terminator.
pub fn next_line(text: &str) -> (r: (&str, &str))
    ensures
        r.0.spec_bytes() == first_line(text.spec_bytes()),
        r.1.spec_bytes() == after_first_line(text.spec_bytes()),
{
    broadcast use encode_utf8_valid_utf8;

    match split_once(text, LF) {
        (line, Some(rest)) => (trim_cr(line), rest),
        (line, None) => {
            proof {
                is_char_boundary_start_end_of_seq(text.spec_bytes());
            }
            let n: usize = text.as_bytes().len();
            let (_, rest) = text.split_at(n);
            (line, rest)
        },
    }
}

} // verus!
