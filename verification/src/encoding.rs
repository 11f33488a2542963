//! UTF-8: how the characters of a text and the bytes of its encoding
//! correspond.

use crate::text::has_infix;
use vstd::prelude::*;
use vstd::utf8::*;

verus! {

/// The length of a text in bytes, as UTF-8.
pub open spec fn byte_len(s: Seq<char>) -> nat {
    encode_utf8(s).len()
}

/// Encoding distributes over concatenation.
pub proof fn lemma_encode_concat(a: Seq<char>, b: Seq<char>)
    ensures
        encode_utf8(a + b) == encode_utf8(a) + encode_utf8(b),
    decreases a.len(),
{
    if a.len() == 0 {
        assert(a + b =~= b);
        assert(encode_utf8(a) + encode_utf8(b) =~= encode_utf8(b));
    } else {
        assert((a + b).drop_first() =~= a.drop_first() + b);
        lemma_encode_concat(a.drop_first(), b);
        assert(encode_utf8(a + b) =~= encode_utf8(a) + encode_utf8(b));
    }
}

/// An initial segment of a text takes no more bytes than the text.
pub proof fn lemma_prefix_byte_len(s: Seq<char>, n: int)
    requires
        0 <= n <= s.len(),
    ensures
        byte_len(s.subrange(0, n)) <= byte_len(s),
        encode_utf8(s).subrange(0, byte_len(s.subrange(0, n)) as int) == encode_utf8(
            s.subrange(0, n),
        ),
{
    let a = s.subrange(0, n);
    let b = s.subrange(n, s.len() as int);
    assert(s =~= a + b);
    lemma_encode_concat(a, b);
    assert((encode_utf8(a) + encode_utf8(b)).subrange(0, encode_utf8(a).len() as int)
        =~= encode_utf8(a));
}

/// A valid encoding that begins another valid encoding ends on one of its
/// character boundaries.
pub proof fn lemma_prefix_boundary(p: Seq<u8>, s: Seq<u8>)
    requires
        valid_utf8(p),
        valid_utf8(s),
        p.len() <= s.len(),
        s.subrange(0, p.len() as int) == p,
    ensures
        is_char_boundary(s, p.len() as int),
    decreases p.len(),
{
    if p.len() > 0 {
        let k = length_of_first_scalar(p);
        assert(forall|i: int| 0 <= i < p.len() ==> s[i] == s.subrange(0, p.len() as int)[i]);
        assert(k == length_of_first_scalar(s));
        assert(k <= p.len());
        let p1 = pop_first_scalar(p);
        let s1 = pop_first_scalar(s);
        assert(s1.subrange(0, p1.len() as int) =~= p1);
        lemma_prefix_boundary(p1, s1);
    }
}

/// A valid encoding that ends another valid encoding begins on one of its
/// character boundaries, and the characters split there.
pub proof fn lemma_suffix_split(p: Seq<u8>, s: Seq<u8>)
    requires
        valid_utf8(p),
        valid_utf8(s),
        p.len() <= s.len(),
        s.subrange(s.len() - p.len(), s.len() as int) == p,
    ensures
        is_char_boundary(s, s.len() - p.len()),
        decode_utf8(s) == decode_utf8(s.subrange(0, s.len() - p.len())) + decode_utf8(p),
{
    let off = s.len() - p.len();
    if p.len() == 0 {
        is_char_boundary_start_end_of_seq(s);
    } else {
        assert(s[off] == s.subrange(off, s.len() as int)[0]);
        is_char_boundary_iff_not_is_continuation_byte(s, off);
    }
    decode_utf8_split(s, off);
}

/// An encoding found inside a valid encoding stands for a run of its
/// characters.
pub proof fn lemma_infix_chars(p: Seq<u8>, s: Seq<u8>, k: int)
    requires
        valid_utf8(p),
        valid_utf8(s),
        0 <= k,
        k + p.len() <= s.len(),
        s.subrange(k, k + p.len()) == p,
    ensures
        has_infix(decode_utf8(s), decode_utf8(p)),
{
    let chars = decode_utf8(s);
    let pat = decode_utf8(p);
    if p.len() == 0 {
        assert(chars.subrange(0int, 0int + pat.len()) =~= pat);
    } else {
        assert(s[k] == s.subrange(k, k + p.len())[0]);
        is_char_boundary_iff_not_is_continuation_byte(s, k);
        valid_utf8_split(s, k);
        decode_utf8_split(s, k);
        let a = s.subrange(0, k);
        let b = s.subrange(k, s.len() as int);
        assert(b.subrange(0, p.len() as int) =~= p);
        lemma_prefix_boundary(p, b);
        decode_utf8_split(b, p.len() as int);
        let c = b.subrange(p.len() as int, b.len() as int);
        let i = decode_utf8(a).len() as int;
        assert(chars == decode_utf8(a) + (pat + decode_utf8(c)));
        assert(chars.subrange(i, i + pat.len()) =~= pat);
    }
}

/// Where the first `k` characters of a text end in its encoding, the
/// character that follows begins; its encoding stands there, and after it
/// the first `k + 1` characters end.
pub proof fn lemma_char_at(s: Seq<char>, k: int)
    requires
        0 <= k < s.len(),
    ensures
        byte_len(s.subrange(0, k)) < byte_len(s),
        valid_first_scalar(
            encode_utf8(s).subrange(byte_len(s.subrange(0, k)) as int, byte_len(s) as int),
        ),
        decode_first_scalar(
            encode_utf8(s).subrange(byte_len(s.subrange(0, k)) as int, byte_len(s) as int),
        ) == s[k] as u32,
        byte_len(s.subrange(0, k + 1)) == byte_len(s.subrange(0, k)) + length_of_first_scalar(
            encode_utf8(s).subrange(byte_len(s.subrange(0, k)) as int, byte_len(s) as int),
        ),
{
    let a = s.subrange(0, k);
    let b = s.subrange(k, s.len() as int);
    assert(s =~= a + b);
    lemma_encode_concat(a, b);
    assert(encode_utf8(s).subrange(byte_len(a) as int, byte_len(s) as int) =~= encode_utf8(b));
    encode_utf8_first_scalar(b);
    assert(b[0] == s[k]);
    assert(s.subrange(0, k + 1) =~= a + seq![s[k]]);
    lemma_encode_concat(a, seq![s[k]]);
    assert(encode_utf8(seq![s[k]]) =~= encode_scalar(s[k] as u32)) by {
        reveal_with_fuel(encode_utf8, 2);
    }
}

/// An ASCII character of a string is one byte of its encoding, with the same
/// value.
pub proof fn lemma_ascii_char_byte(chars: Seq<char>, j: int)
    requires
        0 <= j < chars.len(),
        chars[j] as u32 <= 0x7f,
    ensures
        exists|k: int|
            0 <= k < encode_utf8(chars).len() && #[trigger] encode_utf8(chars)[k] as u32
                == chars[j] as u32,
{
    let a = chars.subrange(0, j);
    let b = chars.subrange(j, chars.len() as int);
    assert(chars =~= a + b);
    lemma_encode_concat(a, b);
    let v = chars[j] as u32;
    assert((v & 0x7F) as u8 == v as u8) by (bit_vector)
        requires
            v <= 0x7f,
    ;
    assert(b[0] == chars[j]);
    let k = encode_utf8(a).len() as int;
    assert(encode_utf8(b)[0] == v as u8);
    assert(encode_utf8(b).len() > 0);
    assert(0 <= k < encode_utf8(chars).len());
    assert(encode_utf8(chars)[k] == encode_utf8(b)[0]);
    assert(encode_utf8(chars)[k] as u32 == chars[j] as u32);
}

/// A valid encoding that begins with an ASCII byte begins with that
/// character.
pub proof fn lemma_ascii_byte_char(bytes: Seq<u8>)
    requires
        valid_utf8(bytes),
        bytes.len() > 0,
        bytes[0] <= 0x7f,
    ensures
        decode_utf8(bytes).len() > 0,
        decode_utf8(bytes)[0] as u32 == bytes[0] as u32,
{
    let b = bytes[0];
    assert((b & 0x7F) as u32 == b as u32) by (bit_vector)
        requires
            b <= 0x7f,
    ;
}

/// A text of ASCII characters is encoded byte for character.
pub proof fn lemma_ascii_encode(s: Seq<char>)
    requires
        forall|i: int| 0 <= i < s.len() ==> (#[trigger] s[i]) as u32 <= 0x7f,
    ensures
        encode_utf8(s).len() == s.len(),
        forall|i: int| 0 <= i < s.len() ==> (#[trigger] encode_utf8(s)[i]) as u32 == s[i] as u32,
    decreases s.len(),
{
    if s.len() > 0 {
        let v = s[0] as u32;
        assert((v & 0x7F) as u8 == v as u8) by (bit_vector)
            requires
                v <= 0x7f,
        ;
        let rest = s.drop_first();
        assert forall|i: int| 0 <= i < rest.len() implies (#[trigger] rest[i]) as u32 <= 0x7f by {
            assert(rest[i] == s[i + 1]);
        }
        lemma_ascii_encode(rest);
        assert forall|i: int| 0 <= i < s.len() implies (#[trigger] encode_utf8(s)[i]) as u32
            == s[i] as u32 by {
            if i > 0 {
                assert(encode_utf8(s)[i] == encode_utf8(rest)[i - 1]);
                assert(rest[i - 1] == s[i]);
            }
        }
    }
}

/// Valid UTF-8 of ASCII bytes decodes character for byte.
pub proof fn lemma_ascii_decode(bytes: Seq<u8>)
    requires
        valid_utf8(bytes),
        forall|i: int| 0 <= i < bytes.len() ==> #[trigger] bytes[i] <= 0x7f,
    ensures
        decode_utf8(bytes).len() == bytes.len(),
        forall|i: int|
            0 <= i < bytes.len() ==> (#[trigger] decode_utf8(bytes)[i]) as u32 == bytes[i] as u32,
    decreases bytes.len(),
{
    if bytes.len() > 0 {
        lemma_ascii_byte_char(bytes);
        let rest = pop_first_scalar(bytes);
        assert(rest =~= bytes.subrange(1, bytes.len() as int));
        assert forall|i: int| 0 <= i < rest.len() implies #[trigger] rest[i] <= 0x7f by {
            assert(rest[i] == bytes[i + 1]);
        }
        lemma_ascii_decode(rest);
        assert forall|i: int| 0 <= i < bytes.len() implies (#[trigger] decode_utf8(bytes)[i]) as u32
            == bytes[i] as u32 by {
            if i > 0 {
                assert(decode_utf8(bytes)[i] == decode_utf8(rest)[i - 1]);
                assert(rest[i - 1] == bytes[i]);
            }
        }
    }
}

/// Characters are ordered as their code points are.
pub proof fn lemma_char_between(c: char, low: char, high: char)
    requires
        low as u32 <= c as u32 <= high as u32,
    ensures
        low <= c <= high,
{
}

/// Reads the character that begins at byte `i` of a valid encoding: its code
/// point and its width in bytes.
pub(crate) fn scalar_at(x: &[u8], i: usize) -> (r: (u32, usize))
    requires
        i < x@.len(),
        valid_first_scalar(x@.subrange(i as int, x@.len() as int)),
    ensures
        r.0 == decode_first_scalar(x@.subrange(i as int, x@.len() as int)),
        r.1 == length_of_first_scalar(x@.subrange(i as int, x@.len() as int)),
        1 <= r.1 <= 4,
        i + r.1 <= x@.len(),
{
    let ghost rest = x@.subrange(i as int, x@.len() as int);
    let b0 = x[i];
    assert(rest[0] == b0);
    if b0 <= 0x7f {
        ((b0 & 0x7F) as u32, 1)
    } else if 0xc0 <= b0 && b0 <= 0xdf {
        let b1 = x[i + 1];
        assert(rest[1] == b1);
        ((((b0 & 0x1F) as u32) << 6) | ((b1 & 0x3f) as u32), 2)
    } else if 0xe0 <= b0 && b0 <= 0xef {
        let b1 = x[i + 1];
        let b2 = x[i + 2];
        assert(rest[1] == b1 && rest[2] == b2);
        ((((b0 & 0x0F) as u32) << 12) | (((b1 & 0x3f) as u32) << 6) | ((b2 & 0x3f) as u32), 3)
    } else {
        let b1 = x[i + 1];
        let b2 = x[i + 2];
        let b3 = x[i + 3];
        assert(rest[1] == b1 && rest[2] == b2 && rest[3] == b3);
        (
            (((b0 & 0x07) as u32) << 18) | (((b1 & 0x3f) as u32) << 12) | (((b2 & 0x3f) as u32)
                << 6) | ((b3 & 0x3f) as u32),
            4,
        )
    }
}

} // verus!
