//! Texts as sequences of characters: what trimming, prefixes, delimiters and
//! decimal numbers mean, and the string operations that compute them.

use crate::encoding::{
    byte_len, lemma_ascii_byte_char, lemma_ascii_char_byte, lemma_ascii_decode,
    lemma_ascii_encode, lemma_char_at, lemma_char_between, lemma_encode_concat,
    lemma_infix_chars, lemma_prefix_boundary, lemma_prefix_byte_len, lemma_suffix_split,
    scalar_at,
};
use vstd::prelude::*;
use vstd::string::StringSliceAdditionalSpecFns;
use vstd::utf8::*;

verus! {

/// The code points with the Unicode `White_Space` property.
pub open spec fn is_whitespace_code(u: u32) -> bool {
    ||| 0x09 <= u <= 0x0D
    ||| u == 0x20
    ||| u == 0x85
    ||| u == 0xA0
    ||| u == 0x1680
    ||| 0x2000 <= u <= 0x200A
    ||| u == 0x2028
    ||| u == 0x2029
    ||| u == 0x202F
    ||| u == 0x205F
    ||| u == 0x3000
}

/// The characters with the Unicode `White_Space` property.
pub open spec fn is_whitespace(c: char) -> bool {
    is_whitespace_code(c as u32)
}

/// Whether every character of a text is whitespace.
pub open spec fn all_whitespace(s: Seq<char>) -> bool {
    forall|i: int| 0 <= i < s.len() ==> is_whitespace(#[trigger] s[i])
}

/// `s` without its leading whitespace.
pub open spec fn skip_leading(s: Seq<char>) -> Seq<char>
    decreases s.len(),
{
    if s.len() > 0 && is_whitespace(s[0]) {
        skip_leading(s.drop_first())
    } else {
        s
    }
}

/// `s` without its trailing whitespace.
pub open spec fn skip_trailing(s: Seq<char>) -> Seq<char>
    decreases s.len(),
{
    if s.len() > 0 && is_whitespace(s.last()) {
        skip_trailing(s.drop_last())
    } else {
        s
    }
}

/// `s` with leading and trailing whitespace removed.
pub open spec fn trimmed(s: Seq<char>) -> Seq<char> {
    skip_trailing(skip_leading(s))
}

/// Whether `p` is an initial segment of `s`.
pub open spec fn has_prefix(s: Seq<char>, p: Seq<char>) -> bool {
    p.len() <= s.len() && s.subrange(0, p.len() as int) == p
}

/// Whether `p` is a final segment of `s`.
pub open spec fn has_suffix(s: Seq<char>, p: Seq<char>) -> bool {
    p.len() <= s.len() && s.subrange(s.len() - p.len(), s.len() as int) == p
}

/// Whether `p` occurs somewhere in `s` as a contiguous run.
pub open spec fn has_infix(s: Seq<char>, p: Seq<char>) -> bool {
    exists|i: int| 0 <= i && i + p.len() <= s.len() && #[trigger] s.subrange(i, i + p.len()) == p
}

/// The part of `s` before its first `c`; all of `s` where it holds no `c`.
pub open spec fn before_char(s: Seq<char>, c: char) -> Seq<char>
    decreases s.len(),
{
    if s.len() == 0 || s[0] == c {
        seq![]
    } else {
        seq![s[0]] + before_char(s.drop_first(), c)
    }
}

/// The number that a run of decimal digits writes.
pub open spec fn digits_value(s: Seq<char>) -> nat
    decreases s.len(),
{
    if s.len() == 0 {
        0
    } else {
        digits_value(s.drop_last()) * 10 + ((s.last() as u32 - '0' as u32) as nat)
    }
}

/// Whether every character is one of `0` to `9`.
pub open spec fn all_digits(s: Seq<char>) -> bool {
    forall|i: int| 0 <= i < s.len() ==> '0' <= #[trigger] s[i] <= '9'
}

/// The unsigned 32-bit number that `s` writes in decimal: an optional `+`,
/// then at least one digit and nothing else, the value within range.
pub open spec fn decimal_u32(s: Seq<char>) -> Option<u32> {
    let d = if s.len() > 0 && s[0] == '+' {
        s.drop_first()
    } else {
        s
    };
    if d.len() > 0 && all_digits(d) && digits_value(d) <= u32::MAX {
        Some(digits_value(d) as u32)
    } else {
        None
    }
}

/// The view of an optional string.
pub open spec fn opt_view(s: Option<String>) -> Option<Seq<char>> {
    match s {
        Some(t) => Some(t@),
        None => None,
    }
}

/// What is left of a text once its leading whitespace is gone is empty or
/// begins with a character that is no whitespace.
pub proof fn lemma_skip_leading(s: Seq<char>)
    ensures
        skip_leading(s).len() == 0 || !is_whitespace(skip_leading(s)[0]),
        skip_leading(s).len() <= s.len(),
    decreases s.len(),
{
    if s.len() > 0 && is_whitespace(s[0]) {
        lemma_skip_leading(s.drop_first());
    }
}

/// What is left of a text once its trailing whitespace is gone is an initial
/// segment of the text, and is empty or ends with a character that is no
/// whitespace.
pub proof fn lemma_skip_trailing(s: Seq<char>)
    ensures
        skip_trailing(s).len() == 0 || !is_whitespace(skip_trailing(s).last()),
        skip_trailing(s).len() <= s.len(),
        skip_trailing(s) == s.subrange(0, skip_trailing(s).len() as int),
    decreases s.len(),
{
    if s.len() > 0 && is_whitespace(s.last()) {
        lemma_skip_trailing(s.drop_last());
        let t = skip_trailing(s.drop_last());
        assert(s.drop_last().subrange(0, t.len() as int) =~= s.subrange(0, t.len() as int));
    } else {
        assert(s.subrange(0, s.len() as int) =~= s);
    }
}

/// A trimmed text has no whitespace at either end, so trimming it again
/// changes nothing.
pub proof fn lemma_trimmed_idempotent(s: Seq<char>)
    ensures
        trimmed(trimmed(s)) == trimmed(s),
        trimmed(s).len() > 0 ==> !is_whitespace(trimmed(s)[0]) && !is_whitespace(
            trimmed(s).last(),
        ),
{
    let l = skip_leading(s);
    lemma_skip_leading(s);
    lemma_skip_trailing(l);
    let t = skip_trailing(l);
    if t.len() > 0 {
        assert(t[0] == l.subrange(0, t.len() as int)[0]);
        assert(skip_leading(t) == t);
        assert(skip_trailing(t) == t);
    } else {
        assert(skip_leading(t) == t);
        assert(skip_trailing(t) == t);
    }
}

/// Whitespace in front of a text that does not begin with whitespace is
/// exactly the leading whitespace.
pub proof fn lemma_skip_leading_all(a: Seq<char>, rest: Seq<char>)
    requires
        all_whitespace(a),
        rest.len() == 0 || !is_whitespace(rest[0]),
    ensures
        skip_leading(a + rest) == rest,
    decreases a.len(),
{
    if a.len() == 0 {
        assert(a + rest =~= rest);
    } else {
        assert((a + rest)[0] == a[0]);
        assert((a + rest).drop_first() =~= a.drop_first() + rest);
        assert forall|i: int| 0 <= i < a.drop_first().len() implies is_whitespace(
            #[trigger] a.drop_first()[i],
        ) by {
            assert(a.drop_first()[i] == a[i + 1]);
        }
        lemma_skip_leading_all(a.drop_first(), rest);
    }
}

/// Whitespace behind a text that does not end with whitespace is exactly the
/// trailing whitespace.
pub proof fn lemma_skip_trailing_all(rest: Seq<char>, b: Seq<char>)
    requires
        all_whitespace(b),
        rest.len() == 0 || !is_whitespace(rest.last()),
    ensures
        skip_trailing(rest + b) == rest,
    decreases b.len(),
{
    if b.len() == 0 {
        assert(rest + b =~= rest);
    } else {
        assert((rest + b).last() == b.last());
        assert((rest + b).drop_last() =~= rest + b.drop_last());
        assert forall|i: int| 0 <= i < b.drop_last().len() implies is_whitespace(
            #[trigger] b.drop_last()[i],
        ) by {
            assert(b.drop_last()[i] == b[i]);
        }
        lemma_skip_trailing_all(rest, b.drop_last());
    }
}

/// A text between two runs of whitespace, which itself neither begins nor
/// ends with whitespace, is what trimming leaves of the whole.
pub proof fn lemma_trimmed_parts(a: Seq<char>, t: Seq<char>, b: Seq<char>)
    requires
        all_whitespace(a),
        all_whitespace(b),
        t.len() > 0 ==> !is_whitespace(t[0]) && !is_whitespace(t.last()),
    ensures
        trimmed(a + t + b) == t,
{
    if t.len() > 0 {
        assert(a + t + b =~= a + (t + b));
        assert((t + b)[0] == t[0]);
        lemma_skip_leading_all(a, t + b);
        lemma_skip_trailing_all(t, b);
    } else {
        assert(a + t + b =~= (a + b) + Seq::<char>::empty());
        let both = a + b;
        assert forall|i: int| 0 <= i < both.len() implies is_whitespace(#[trigger] both[i]) by {
            if i < a.len() {
                assert((a + b)[i] == a[i]);
            } else {
                assert((a + b)[i] == b[i - a.len()]);
            }
        }
        lemma_skip_leading_all(a + b, Seq::<char>::empty());
        assert(t =~= Seq::<char>::empty());
    }
}

/// `before_char` is the one initial segment without `c` that either is all of
/// `s` or is followed by `c`.
pub proof fn lemma_before_char(s: Seq<char>, c: char, head: Seq<char>)
    requires
        !head.contains(c),
        has_prefix(s, head),
        head.len() == s.len() || s[head.len() as int] == c,
    ensures
        before_char(s, c) == head,
    decreases head.len(),
{
    if head.len() == 0 {
        assert(head =~= seq![]);
    } else {
        assert(s[0] == s.subrange(0, head.len() as int)[0]);
        assert(head.contains(head[0]));
        let rest = head.drop_first();
        assert forall|x: char| rest.contains(x) implies head.contains(x) by {
            let i = choose|i: int| 0 <= i < rest.len() && rest[i] == x;
            assert(head[i + 1] == x);
        }
        assert(s.drop_first().subrange(0, rest.len() as int) =~= rest);
        lemma_before_char(s.drop_first(), c, rest);
        assert(seq![s[0]] + rest =~= head);
    }
}

/// A run of digits writes a number no smaller than any of its initial
/// segments does.
pub proof fn lemma_digits_value_grows(s: Seq<char>, n: int)
    requires
        0 <= n <= s.len(),
        all_digits(s),
    ensures
        digits_value(s.subrange(0, n)) <= digits_value(s),
    decreases s.len() - n,
{
    if n == s.len() {
        assert(s.subrange(0, n) =~= s);
    } else {
        lemma_digits_value_grows(s.drop_last(), n);
        assert(s.drop_last().subrange(0, n) =~= s.subrange(0, n));
    }
}

/// Whether two strings hold the same characters.
pub fn str_eq(a: &str, b: &str) -> (r: bool)
    ensures
        r == (a@ == b@),
{
    broadcast use vstd::utf8::encode_utf8_decode_utf8;

    let x = a.as_bytes();
    let y = b.as_bytes();
    if x.len() != y.len() {
        return false;
    }
    let mut i: usize = 0;
    while i < x.len()
        invariant
            x@ == a.spec_bytes(),
            y@ == b.spec_bytes(),
            x.len() == y.len(),
            i <= x.len(),
            forall|k: int| 0 <= k < i ==> x@[k] == y@[k],
        decreases x.len() - i,
    {
        if x[i] != y[i] {
            return false;
        }
        i += 1;
    }
    assert(x@ =~= y@);
    assert(a@ == decode_utf8(a.spec_bytes()));
    assert(b@ == decode_utf8(b.spec_bytes()));
    true
}

/// What follows `p` in `s`, where `s` begins with `p`.
pub fn strip_prefix<'a>(s: &'a str, p: &str) -> (r: Option<&'a str>)
    ensures
        match r {
            Some(t) => s@ == p@ + t@,
            None => !has_prefix(s@, p@),
        },
{
    broadcast use vstd::utf8::encode_utf8_decode_utf8, vstd::utf8::encode_utf8_valid_utf8;

    let x = s.as_bytes();
    let y = p.as_bytes();
    if x.len() < y.len() {
        proof {
            if has_prefix(s@, p@) {
                let rest = s@.subrange(p@.len() as int, s@.len() as int);
                assert(s@ =~= p@ + rest);
                lemma_encode_concat(p@, rest);
            }
        }
        return None;
    }
    let mut i: usize = 0;
    while i < y.len()
        invariant
            x@ == s.spec_bytes(),
            y@ == p.spec_bytes(),
            y.len() <= x.len(),
            i <= y.len(),
            forall|k: int| 0 <= k < i ==> x@[k] == y@[k],
        decreases y.len() - i,
    {
        if x[i] != y[i] {
            proof {
                if has_prefix(s@, p@) {
                    let rest = s@.subrange(p@.len() as int, s@.len() as int);
                    assert(s@ =~= p@ + rest);
                    lemma_encode_concat(p@, rest);
                }
            }
            return None;
        }
        i += 1;
    }
    proof {
        assert(x@.subrange(0, y@.len() as int) =~= y@);
        lemma_prefix_boundary(y@, x@);
    }
    let (head, tail) = s.split_at(y.len());
    proof {
        vstd::utf8::decode_utf8_split(x@, y@.len() as int);
        assert(head.spec_bytes() == p.spec_bytes());
        assert(head@ == decode_utf8(head.spec_bytes()));
        assert(tail@ == decode_utf8(tail.spec_bytes()));
        assert(s@ == decode_utf8(s.spec_bytes()));
        assert(p@ == decode_utf8(p.spec_bytes()));
    }
    Some(tail)
}

/// Whether `s` begins with `p`.
pub fn starts_with(s: &str, p: &str) -> (r: bool)
    ensures
        r == has_prefix(s@, p@),
{
    match strip_prefix(s, p) {
        Some(t) => {
            assert((p@ + t@).subrange(0, p@.len() as int) =~= p@);
            true
        },
        None => false,
    }
}

/// Whether `s` ends with `p`.
pub fn ends_with(s: &str, p: &str) -> (r: bool)
    ensures
        r == has_suffix(s@, p@),
{
    broadcast use encode_utf8_decode_utf8, encode_utf8_valid_utf8;

    let x = s.as_bytes();
    let y = p.as_bytes();
    proof {
        if has_suffix(s@, p@) {
            let rest = s@.subrange(0, s@.len() - p@.len());
            assert(s@ =~= rest + p@);
            lemma_encode_concat(rest, p@);
            assert(x@.subrange(x@.len() - y@.len(), x@.len() as int) =~= y@);
        }
    }
    if x.len() < y.len() {
        return false;
    }
    let off: usize = x.len() - y.len();
    let mut i: usize = 0;
    while i < y.len()
        invariant
            x@ == s.spec_bytes(),
            y@ == p.spec_bytes(),
            off + y.len() == x.len(),
            i <= y.len(),
            forall|k: int| 0 <= k < i ==> x@[off + k] == y@[k],
            has_suffix(s@, p@) ==> x@.subrange(x@.len() - y@.len(), x@.len() as int) == y@,
        decreases y.len() - i,
    {
        if x[off + i] != y[i] {
            proof {
                if has_suffix(s@, p@) {
                    assert(x@.subrange(x@.len() - y@.len(), x@.len() as int)[i as int] == x@[off
                        + i]);
                }
            }
            return false;
        }
        i += 1;
    }
    proof {
        assert(x@.subrange(off as int, x@.len() as int) =~= y@);
        lemma_suffix_split(y@, x@);
        let head = decode_utf8(x@.subrange(0, off as int));
        assert(s@ == head + p@);
        assert(s@.subrange(s@.len() - p@.len(), s@.len() as int) =~= p@);
    }
    true
}

/// Whether `p` occurs in `s`.
pub fn contains(s: &str, p: &str) -> (r: bool)
    ensures
        r == has_infix(s@, p@),
{
    broadcast use encode_utf8_decode_utf8, encode_utf8_valid_utf8;

    let x = s.as_bytes();
    let y = p.as_bytes();
    proof {
        if has_infix(s@, p@) {
            let i = choose|i: int|
                0 <= i && i + p@.len() <= s@.len() && #[trigger] s@.subrange(i, i + p@.len())
                    == p@;
            let a = s@.subrange(0, i);
            let c = s@.subrange(i + p@.len(), s@.len() as int);
            assert(s@ =~= a + (p@ + c));
            lemma_encode_concat(a, p@ + c);
            lemma_encode_concat(p@, c);
            let k = encode_utf8(a).len() as int;
            assert(x@.subrange(k, k + y@.len()) =~= y@);
        }
    }
    if x.len() < y.len() {
        return false;
    }
    if y.len() == 0 {
        proof {
            assert(p@ == decode_utf8(y@));
            assert(s@.subrange(0int, 0int + p@.len()) =~= p@);
        }
        return true;
    }
    let last: usize = x.len() - y.len();
    let mut k: usize = 0;
    while k <= last
        invariant
            x@ == s.spec_bytes(),
            y@ == p.spec_bytes(),
            y.len() > 0,
            last + y.len() == x.len(),
            k <= last + 1,
            forall|j: int| 0 <= j < k ==> #[trigger] x@.subrange(j, j + y@.len()) != y@,
        decreases last + 1 - k,
    {
        let mut i: usize = 0;
        let mut same = true;
        while i < y.len()
            invariant
                last + y.len() == x.len(),
                k <= last,
                i <= y.len(),
                same ==> forall|j: int| 0 <= j < i ==> x@[k + j] == y@[j],
                !same ==> x@.subrange(k as int, k + y@.len()) != y@,
            decreases y.len() - i,
        {
            if x[k + i] != y[i] {
                proof {
                    assert(x@.subrange(k as int, k + y@.len())[i as int] == x@[k + i]);
                }
                same = false;
            }
            i += 1;
        }
        if same {
            proof {
                assert(x@.subrange(k as int, k + y@.len()) =~= y@);
                encode_utf8_valid_utf8(p@);
                encode_utf8_valid_utf8(s@);
                encode_utf8_decode_utf8(p@);
                encode_utf8_decode_utf8(s@);
                lemma_infix_chars(y@, x@, k as int);
            }
            return true;
        }
        k += 1;
    }
    proof {
        if has_infix(s@, p@) {
            let j = choose|j: int|
                0 <= j && j + y@.len() <= x@.len() && #[trigger] x@.subrange(j, j + y@.len())
                    == y@;
            assert(j < k);
        }
    }
    false
}

/// The part of `s` before its first semicolon; all of `s` where it has none.
pub fn before_semicolon(s: &str) -> (r: &str)
    ensures
        r@ == before_char(s@, ';'),
{
    assert(0x3bu8 as char == ';');
    until_ascii(s, 0x3b)
}

/// The part of `s` before its first occurrence of the ASCII character with
/// the code `b`.
fn until_ascii(s: &str, b: u8) -> (r: &str)
    requires
        b <= 0x7f,
    ensures
        r@ == before_char(s@, b as char),
{
    let x = s.as_bytes();
    let mut i: usize = 0;
    while i < x.len() && x[i] != b
        invariant
            i <= x.len(),
            forall|k: int| 0 <= k < i ==> x@[k] != b,
        decreases x.len() - i,
    {
        i += 1;
    }
    proof {
        encode_utf8_valid_utf8(s@);
        encode_utf8_decode_utf8(s@);
        if i < x.len() {
            is_char_boundary_iff_not_is_continuation_byte(x@, i as int);
        } else {
            is_char_boundary_start_end_of_seq(x@);
        }
    }
    let (head, tail) = s.split_at(i);
    proof {
        let c = b as char;
        encode_utf8_decode_utf8(head@);
        encode_utf8_decode_utf8(tail@);
        encode_utf8_valid_utf8(tail@);
        decode_utf8_split(x@, i as int);
        assert(s@ == head@ + tail@);
        assert(s@.subrange(0, head@.len() as int) =~= head@);
        if head@.contains(c) {
            let j = choose|j: int| 0 <= j < head@.len() && head@[j] == c;
            lemma_ascii_char_byte(head@, j);
        }
        if i < x.len() {
            assert(tail.spec_bytes()[0] == x@[i as int]);
            lemma_ascii_byte_char(tail.spec_bytes());
            assert(tail@[0] == c);
            assert(s@[head@.len() as int] == tail@[0]);
        } else {
            assert(tail.spec_bytes().len() == 0);
            assert(tail@.len() == 0);
        }
        lemma_before_char(s@, c, head@);
    }
    head
}

/// Reads an unsigned 32-bit number written in decimal: an optional `+`, then
/// at least one digit and nothing else. Nothing where the text is no such
/// number or the number does not fit.
pub fn parse_u32(s: &str) -> (r: Option<u32>)
    ensures
        r == decimal_u32(s@),
{
    let x = s.as_bytes();
    let n = x.len();
    proof {
        encode_utf8_valid_utf8(s@);
        encode_utf8_decode_utf8(s@);
        if decimal_u32(s@) is Some {
            assert forall|i: int| 0 <= i < s@.len() implies (#[trigger] s@[i]) as u32 <= 0x7f by {
                if s@[0] == '+' && i > 0 {
                    assert(s@.drop_first()[i - 1] == s@[i]);
                }
            }
            lemma_ascii_encode(s@);
        }
    }
    let start: usize = if n > 0 && x[0] == 0x2b {
        1
    } else {
        0
    };
    let mut i: usize = start;
    while i < n
        invariant
            x@ == s.spec_bytes(),
            n == x@.len(),
            start <= i <= n,
            start <= 1,
            start == 1 ==> x@[0] == 0x2b,
            start == 0 && n > 0 ==> x@[0] != 0x2b,
            forall|k: int| start <= k < i ==> 0x30 <= #[trigger] x@[k] <= 0x39,
            decimal_u32(s@) is Some ==> x@.len() == s@.len() && forall|k: int|
                0 <= k < s@.len() ==> (#[trigger] x@[k]) as u32 == s@[k] as u32,
        decreases n - i,
    {
        if x[i] < 0x30 || x[i] > 0x39 {
            proof {
                if decimal_u32(s@) is Some {
                    assert(x@[i as int] as u32 == s@[i as int] as u32);
                    assert(x@[0] as u32 == s@[0] as u32);
                    if s@[0] == '+' {
                        assert(s@.drop_first()[i - 1] == s@[i as int]);
                    }
                }
            }
            return None;
        }
        i += 1;
    }
    proof {
        encode_utf8_valid_utf8(s@);
        encode_utf8_decode_utf8(s@);
        assert forall|k: int| 0 <= k < x@.len() implies #[trigger] x@[k] <= 0x7f by {}
        lemma_ascii_decode(x@);
        assert(s@.len() == n);
    }
    let ghost d = s@.subrange(start as int, n as int);
    proof {
        if n > 0 {
            assert(s@[0] as u32 == x@[0] as u32);
        }
        if start == 1 {
            assert(d =~= s@.drop_first());
        } else {
            assert(d =~= s@);
        }
        assert('0' as u32 == 0x30 && '9' as u32 == 0x39);
        assert forall|k: int| 0 <= k < d.len() implies '0' <= #[trigger] d[k] <= '9' by {
            assert(d[k] == s@[start + k]);
            assert(s@[start + k] as u32 == x@[start + k] as u32);
            lemma_char_between(d[k], '0', '9');
        }
    }
    let ghost verdict = decimal_u32(s@);
    assert(verdict == (if d.len() > 0 && digits_value(d) <= u32::MAX {
        Some(digits_value(d) as u32)
    } else {
        None
    }));
    if start == n {
        return None;
    }
    let mut value: u64 = 0;
    let mut j: usize = start;
    assert(d.subrange(0, 0) =~= Seq::<char>::empty());
    while j < n
        invariant
            n == x@.len(),
            start <= j <= n,
            d.len() == n - start,
            all_digits(d),
            forall|k: int| 0 <= k < d.len() ==> (#[trigger] d[k]) as u32 == x@[start + k] as u32,
            value == digits_value(d.subrange(0, j - start)),
            value <= u32::MAX,
            verdict == decimal_u32(s@),
            verdict == (if d.len() > 0 && digits_value(d) <= u32::MAX {
                Some(digits_value(d) as u32)
            } else {
                None
            }),
        decreases n - j,
    {
        let ghost upto = d.subrange(0, j + 1 - start);
        proof {
            assert(upto.drop_last() =~= d.subrange(0, j - start));
            assert(upto.last() == d[j - start]);
            assert('0' <= d[j - start] <= '9');
        }
        let digit: u64 = (x[j] - 0x30) as u64;
        let next: u64 = value * 10 + digit;
        assert(next == digits_value(upto));
        if next > 0xffff_ffff {
            proof {
                lemma_digits_value_grows(d, j + 1 - start);
            }
            return None;
        }
        value = next;
        j += 1;
    }
    assert(d.subrange(0, n - start) =~= d);
    Some(value as u32)
}

/// Whether a code point has the Unicode `White_Space` property.
pub fn is_whitespace_scalar(u: u32) -> (r: bool)
    ensures
        r == is_whitespace_code(u),
{
    (0x09 <= u && u <= 0x0D) || u == 0x20 || u == 0x85 || u == 0xA0 || u == 0x1680 || (0x2000 <= u
        && u <= 0x200A) || u == 0x2028 || u == 0x2029 || u == 0x202F || u == 0x205F || u
        == 0x3000
}

/// The text without the whitespace at its two ends, whitespace being the
/// characters with the Unicode `White_Space` property.
pub fn trim(s: &str) -> (r: &str)
    ensures
        r@ == trimmed(s@),
{
    let x = s.as_bytes();
    let n = x.len();
    let ghost chars = s@;
    let mut i: usize = 0;
    let mut start: usize = 0;
    let mut end: usize = 0;
    let mut seen = false;
    let ghost mut k: int = 0;
    let ghost mut first: int = 0;
    let ghost mut last: int = 0;
    proof {
        encode_utf8_valid_utf8(chars);
        encode_utf8_decode_utf8(chars);
        assert(chars.subrange(0, 0) =~= Seq::<char>::empty());
        assert(byte_len(Seq::<char>::empty()) == 0);
    }
    while i < n
        invariant
            chars == s@,
            x@ == encode_utf8(chars),
            n == x@.len(),
            0 <= k <= chars.len(),
            i == byte_len(chars.subrange(0, k)),
            i <= n,
            i == n ==> k == chars.len(),
            !seen ==> all_whitespace(chars.subrange(0, k)),
            seen ==> {
                &&& 0 <= first < last <= k
                &&& start == byte_len(chars.subrange(0, first))
                &&& end == byte_len(chars.subrange(0, last))
                &&& all_whitespace(chars.subrange(0, first))
                &&& all_whitespace(chars.subrange(last, k))
                &&& !is_whitespace(chars[first])
                &&& !is_whitespace(chars[last - 1])
            },
        decreases n - i,
    {
        proof {
            if k == chars.len() {
                assert(chars.subrange(0, k) =~= chars);
            }
            lemma_char_at(chars, k);
        }
        let (code, width) = scalar_at(x, i);
        let blank = is_whitespace_scalar(code);
        proof {
            assert(chars.subrange(0, k + 1).drop_last() =~= chars.subrange(0, k));
            if k + 1 < chars.len() {
                lemma_char_at(chars, k + 1);
            } else {
                assert(chars.subrange(0, k + 1) =~= chars);
            }
        }
        if !blank {
            if !seen {
                start = i;
                seen = true;
                proof {
                    first = k;
                }
            }
            end = i + width;
            proof {
                last = k + 1;
                assert(chars.subrange(last, k + 1) =~= Seq::<char>::empty());
            }
        } else {
            proof {
                if seen {
                    let tail = chars.subrange(last, k + 1);
                    assert forall|j: int| 0 <= j < tail.len() implies is_whitespace(
                        #[trigger] tail[j],
                    ) by {
                        if j < k - last {
                            assert(chars.subrange(last, k)[j] == chars[last + j]);
                        }
                    }
                } else {
                    let front = chars.subrange(0, k + 1);
                    assert forall|j: int| 0 <= j < front.len() implies is_whitespace(
                        #[trigger] front[j],
                    ) by {
                        if j < k {
                            assert(chars.subrange(0, k)[j] == chars[j]);
                        }
                    }
                }
            }
        }
        i = i + width;
        proof {
            k = k + 1;
        }
    }
    if !seen {
        proof {
            assert(chars.subrange(0, k) =~= chars);
            lemma_trimmed_parts(chars, Seq::<char>::empty(), Seq::<char>::empty());
            assert(chars + Seq::<char>::empty() + Seq::<char>::empty() =~= chars);
            is_char_boundary_start_end_of_seq(x@);
        }
        let (head, _) = s.split_at(0);
        proof {
            encode_utf8_decode_utf8(head@);
            assert(head.spec_bytes() =~= Seq::<u8>::empty());
            assert(head@.len() == 0);
            assert(head@ =~= Seq::<char>::empty());
        }
        return head;
    }
    proof {
        lemma_prefix_byte_len(chars, last);
        encode_utf8_valid_utf8(chars.subrange(0, last));
        lemma_prefix_boundary(encode_utf8(chars.subrange(0, last)), x@);
    }
    let (head, _) = s.split_at(end);
    proof {
        encode_utf8_decode_utf8(head@);
        encode_utf8_decode_utf8(chars.subrange(0, last));
        assert(head@ == chars.subrange(0, last));
        lemma_prefix_byte_len(head@, first);
        assert(head@.subrange(0, first) =~= chars.subrange(0, first));
        encode_utf8_valid_utf8(head@.subrange(0, first));
        encode_utf8_valid_utf8(head@);
        lemma_prefix_boundary(encode_utf8(head@.subrange(0, first)), head.spec_bytes());
    }
    let (_, body) = head.split_at(start);
    proof {
        encode_utf8_decode_utf8(body@);
        let a = chars.subrange(0, first);
        let t = chars.subrange(first, last);
        let b = chars.subrange(last, chars.len() as int);
        assert(head@ =~= a + t);
        lemma_encode_concat(a, t);
        assert(body.spec_bytes() =~= encode_utf8(t));
        encode_utf8_decode_utf8(t);
        assert(body@ == t);
        assert(chars =~= a + t + b);
        assert(t[0] == chars[first]);
        assert(t.last() == chars[last - 1]);
        assert(b =~= chars.subrange(last, k));
        lemma_trimmed_parts(a, t, b);
    }
    body
}

} // verus!
