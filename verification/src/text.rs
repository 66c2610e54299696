//! Byte-level views of UTF-8 strings, and the small searches and splits the
//! parsers in this crate share.

use vstd::prelude::*;
use vstd::utf8::*;
use vstd::string::StringSliceAdditionalSpecFns;

verus! {

broadcast use vstd::utf8::encode_utf8_valid_utf8;

/// The UTF-8 bytes of a string.
pub open spec fn bytes_of(s: &str) -> Seq<u8> {
    s.spec_bytes()
}

/// Bytes that are well-formed UTF-8. Kept opaque: the recursive definition
/// is only opened where a proof looks inside it.
#[verifier::opaque]
pub open spec fn is_utf8(b: Seq<u8>) -> bool {
    valid_utf8(b)
}

/// The bytes of a string are well-formed UTF-8.
pub proof fn lemma_str_is_utf8(s: &str)
    ensures
        is_utf8(bytes_of(s)),
{
    reveal(is_utf8);
}

/// The UTF-8 bytes of an owned string.
pub open spec fn string_bytes(s: String) -> Seq<u8> {
    encode_utf8(s@)
}

/// Every byte below `0x80`.
pub open spec fn is_ascii_bytes(b: Seq<u8>) -> bool {
    forall|i: int| 0 <= i < b.len() ==> #[trigger] b[i] < 0x80
}

/// ASCII bytes are well-formed UTF-8.
pub proof fn lemma_ascii_is_utf8(b: Seq<u8>)
    requires
        is_ascii_bytes(b),
    ensures
        is_utf8(b),
{
    reveal(is_utf8);
    assert(b.subrange(0, 0) =~= Seq::<u8>::empty());
    assert(partial_valid_utf8(b, 0));
    assert forall|i: int| 0 <= 0 <= i < b.len() <= b.len() implies #[trigger] is_leading_byte_width_1(
        b[i],
    ) by {
        assert(b[i] < 0x80);
    }
    partial_valid_utf8_extend_ascii_block(b, 0, b.len() as int);
    assert(b.subrange(0, b.len() as int) =~= b);
}

/// An owned copy of `s`.
pub fn to_owned_string(s: &str) -> (r: String)
    ensures
        string_bytes(r) == bytes_of(s),
{
    s.to_owned()
}

/// Two strings are equal exactly when their UTF-8 bytes are.
pub proof fn lemma_bytes_eq_iff_str_eq(a: &str, b: &str)
    ensures
        (bytes_of(a) == bytes_of(b)) <==> (a@ == b@),
{
    broadcast use vstd::utf8::encode_utf8_decode_utf8;
    if bytes_of(a) == bytes_of(b) {
        assert(decode_utf8(encode_utf8(a@)) == a@);
        assert(decode_utf8(encode_utf8(b@)) == b@);
    }
}

/// The number of UTF-8 bytes of `s` (`str::len`).
pub fn byte_len(s: &str) -> (r: usize)
    ensures
        r == bytes_of(s).len(),
{
    s.as_bytes().len()
}

/// First position of `x` in `b`, if any.
pub fn find_byte(b: &[u8], x: u8) -> (r: Option<usize>)
    ensures
        match r {
            Some(i) => i < b@.len() && b@[i as int] == x && forall|j: int|
                0 <= j < i ==> b@[j] != x,
            None => forall|j: int| 0 <= j < b@.len() ==> b@[j] != x,
        },
{
    let mut i: usize = 0;
    while i < b.len()
        invariant
            i <= b@.len(),
            forall|j: int| 0 <= j < i ==> b@[j] != x,
        decreases b@.len() - i,
    {
        if b[i] == x {
            return Some(i);
        }
        i += 1;
    }
    None
}

/// Split `s` at byte `i`, where the byte at `i` (if any) is ASCII.
pub fn split_at_ascii<'a>(s: &'a str, i: usize) -> (r: (&'a str, &'a str))
    requires
        i <= bytes_of(s).len(),
        i < bytes_of(s).len() ==> bytes_of(s)[i as int] < 0x80,
    ensures
        bytes_of(r.0) == bytes_of(s).subrange(0, i as int),
        bytes_of(r.1) == bytes_of(s).subrange(i as int, bytes_of(s).len() as int),
{
    proof {
        let b = bytes_of(s);
        assert(valid_utf8(encode_utf8(s@)));
        if i as int == b.len() {
            is_char_boundary_start_end_of_seq(b);
        } else {
            is_char_boundary_iff_not_is_continuation_byte(b, i as int);
        }
    }
    s.split_at(i)
}

/// Drop the first byte of `s`, which is ASCII.
pub fn skip_ascii<'a>(s: &'a str) -> (r: &'a str)
    requires
        bytes_of(s).len() > 0,
        bytes_of(s)[0] < 0x80,
    ensures
        bytes_of(r) == bytes_of(s).subrange(1, bytes_of(s).len() as int),
{
    proof {
        let b = bytes_of(s);
        assert(valid_utf8(encode_utf8(s@)));
        reveal_with_fuel(is_char_boundary, 2);
        assert(length_of_first_scalar(b) == 1);
        assert(is_char_boundary(b, 1));
    }
    let (_, r) = s.split_at(1);
    r
}

/// Byte-wise equality of two slices.
pub fn bytes_eq(a: &[u8], b: &[u8]) -> (r: bool)
    ensures
        r == (a@ == b@),
{
    if a.len() != b.len() {
        return false;
    }
    let mut i: usize = 0;
    while i < a.len()
        invariant
            a@.len() == b@.len(),
            i <= a@.len(),
            forall|j: int| 0 <= j < i ==> a@[j] == b@[j],
        decreases a@.len() - i,
    {
        if a[i] != b[i] {
            return false;
        }
        i += 1;
    }
    assert(a@ =~= b@);
    true
}

/// Equality of two strings, decided on their bytes.
pub fn str_eq(a: &str, b: &str) -> (r: bool)
    ensures
        r == (bytes_of(a) == bytes_of(b)),
        r == (a@ == b@),
{
    proof {
        lemma_bytes_eq_iff_str_eq(a, b);
    }
    bytes_eq(a.as_bytes(), b.as_bytes())
}

} // verus!
