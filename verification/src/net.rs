//! Address and host-name classification for the request guard.

use crate::text::{ends_with, has_suffix, str_eq};
use vstd::prelude::*;
use vstd::string::StringExecFns;

verus! {

/// Whether the IPv4 address with these four octets lies in a range that must
/// never be fetched: loopback, private, link-local, broadcast, unspecified,
/// the documentation ranges, `0.0.0.0/8`, and everything from `224.0.0.0` up.
pub open spec fn ipv4_is_private(a: Seq<u8>) -> bool
    recommends
        a.len() == 4,
{
    ||| a[0] == 127
    ||| a[0] == 10
    ||| (a[0] == 172 && 16 <= a[1] <= 31)
    ||| (a[0] == 192 && a[1] == 168)
    ||| (a[0] == 169 && a[1] == 254)
    ||| (a[0] == 255 && a[1] == 255 && a[2] == 255 && a[3] == 255)
    ||| (a[0] == 0 && a[1] == 0 && a[2] == 0 && a[3] == 0)
    ||| (a[0] == 192 && a[1] == 0 && a[2] == 2)
    ||| (a[0] == 198 && a[1] == 51 && a[2] == 100)
    ||| (a[0] == 203 && a[1] == 0 && a[2] == 113)
    ||| a[0] == 0
    ||| a[0] >= 224
}

/// Decides whether an IPv4 address, given by its octets, is internal.
pub fn is_private_ipv4(ip: [u8; 4]) -> (r: bool)
    ensures
        r == ipv4_is_private(ip@),
{
    let a: u8 = ip[0];
    let b: u8 = ip[1];
    let c: u8 = ip[2];
    a == 127 || a == 10 || (a == 172 && 16 <= b && b <= 31) || (a == 192 && b == 168) || (a == 169
        && b == 254) || (a == 192 && b == 0 && c == 2) || (a == 198 && b == 51 && c == 100) || (a
        == 203 && b == 0 && c == 113) || a == 0 || a >= 224
}

/// The IPv4 address that the last two segments of an IPv6 address embed.
pub open spec fn embedded_ipv4(s: Seq<u16>) -> Seq<u8>
    recommends
        s.len() == 8,
{
    seq![(s[6] / 256) as u8, (s[6] % 256) as u8, (s[7] / 256) as u8, (s[7] % 256) as u8]
}

/// Whether the segments are those of an IPv4-mapped address, `::ffff:a.b.c.d`.
pub open spec fn is_ipv4_mapped(s: Seq<u16>) -> bool
    recommends
        s.len() == 8,
{
    s[0] == 0 && s[1] == 0 && s[2] == 0 && s[3] == 0 && s[4] == 0 && s[5] == 0xffff
}

/// Whether the IPv6 address with these eight segments must never be fetched:
/// loopback `::1`, unspecified `::`, multicast `ff00::/8`, an IPv4-mapped
/// address whose IPv4 address is private, unique-local `fc00::/7`, and
/// link-local `fe80::/10`.
pub open spec fn ipv6_is_private(s: Seq<u16>) -> bool
    recommends
        s.len() == 8,
{
    ||| (s[0] == 0 && s[1] == 0 && s[2] == 0 && s[3] == 0 && s[4] == 0 && s[5] == 0 && s[6] == 0
        && s[7] == 1)
    ||| (s[0] == 0 && s[1] == 0 && s[2] == 0 && s[3] == 0 && s[4] == 0 && s[5] == 0 && s[6] == 0
        && s[7] == 0)
    ||| s[0] >= 0xff00
    ||| (is_ipv4_mapped(s) && ipv4_is_private(embedded_ipv4(s)))
    ||| 0xfc00 <= s[0] <= 0xfdff
    ||| 0xfe80 <= s[0] <= 0xfebf
}

/// Decides whether an IPv6 address, given by its segments, is internal.
pub fn is_private_ipv6(ip: [u16; 8]) -> (r: bool)
    ensures
        r == ipv6_is_private(ip@),
{
    let s0: u16 = ip[0];
    let s6: u16 = ip[6];
    let s7: u16 = ip[7];
    let upper_zero = s0 == 0 && ip[1] == 0 && ip[2] == 0 && ip[3] == 0 && ip[4] == 0;
    let mapped = upper_zero && ip[5] == 0xffff;
    let low_zero = upper_zero && ip[5] == 0 && s6 == 0;
    let embedded: [u8; 4] = [
        (s6 >> 8) as u8,
        (s6 & 0xff) as u8,
        (s7 >> 8) as u8,
        (s7 & 0xff) as u8,
    ];
    proof {
        assert((s6 >> 8) as u8 == (s6 / 256) as u8 && (s6 & 0xff) as u8 == (s6 % 256) as u8)
            by (bit_vector);
        assert((s7 >> 8) as u8 == (s7 / 256) as u8 && (s7 & 0xff) as u8 == (s7 % 256) as u8)
            by (bit_vector);
        assert(embedded@ =~= embedded_ipv4(ip@));
        assert(((s0 & 0xfe00) == 0xfc00) == (0xfc00 <= s0 && s0 <= 0xfdff)) by (bit_vector);
        assert(((s0 & 0xffc0) == 0xfe80) == (0xfe80 <= s0 && s0 <= 0xfebf)) by (bit_vector);
        assert(((s0 & 0xff00) == 0xff00) == (s0 >= 0xff00)) by (bit_vector);
    }
    (low_zero && s7 == 1) || (low_zero && s7 == 0) || (s0 & 0xff00) == 0xff00 || (mapped
        && is_private_ipv4(embedded)) || (s0 & 0xfe00) == 0xfc00 || (s0 & 0xffc0) == 0xfe80
}

/// An IP address as plain numbers.
#[derive(Clone, Copy, Debug, PartialEq, Eq)]
pub enum IpAddress {
    /// An IPv4 address, by its four octets.
    V4([u8; 4]),
    /// An IPv6 address, by its eight 16-bit segments.
    V6([u16; 8]),
}

/// Whether an address of either family must never be fetched.
pub open spec fn ip_is_private(ip: IpAddress) -> bool {
    match ip {
        IpAddress::V4(a) => ipv4_is_private(a@),
        IpAddress::V6(s) => ipv6_is_private(s@),
    }
}

/// Decides whether an address of either family is internal.
pub fn is_private_ip(ip: IpAddress) -> (r: bool)
    ensures
        r == ip_is_private(ip),
{
    match ip {
        IpAddress::V4(a) => is_private_ipv4(a),
        IpAddress::V6(s) => is_private_ipv6(s),
    }
}

/// What `str::to_lowercase` makes of a string.
pub uninterp spec fn lowercased(s: Seq<char>) -> Seq<char>;

/// Wraps `str::to_lowercase`: the string with each character replaced by its
/// Unicode lowercase form.
#[verifier::external_body]
pub(crate) fn lowercase(s: &str) -> (r: String)
    ensures
        r@ == lowercased(s@),
{
    s.to_lowercase()
}

/// Whether a host name in lower case names an internal host: `localhost`,
/// anything under `.local` or `.internal`, and `metadata.google.internal`.
pub open spec fn internal_name(lower: Seq<char>) -> bool {
    ||| lower == "localhost"@
    ||| has_suffix(lower, ".local"@)
    ||| has_suffix(lower, ".internal"@)
    ||| lower == "metadata.google.internal"@
}

/// Decides whether a host name that is already in lower case is internal.
pub fn is_internal_name(lower: &str) -> (r: bool)
    ensures
        r == internal_name(lower@),
{
    str_eq(lower, "localhost") || ends_with(lower, ".local") || ends_with(lower, ".internal")
        || str_eq(lower, "metadata.google.internal")
}

/// Decides whether a host name, in any case, names an internal host.
pub fn is_internal_host(name: &str) -> (r: bool)
    ensures
        r == internal_name(lowercased(name@)),
{
    let lower = lowercase(name);
    is_internal_name(lower.as_str())
}

/// The character that writes the digit `d`, in bases up to sixteen.
pub open spec fn digit_char(d: int) -> char {
    if d == 0 {
        '0'
    } else if d == 1 {
        '1'
    } else if d == 2 {
        '2'
    } else if d == 3 {
        '3'
    } else if d == 4 {
        '4'
    } else if d == 5 {
        '5'
    } else if d == 6 {
        '6'
    } else if d == 7 {
        '7'
    } else if d == 8 {
        '8'
    } else if d == 9 {
        '9'
    } else if d == 10 {
        'a'
    } else if d == 11 {
        'b'
    } else if d == 12 {
        'c'
    } else if d == 13 {
        'd'
    } else if d == 14 {
        'e'
    } else {
        'f'
    }
}

/// The digits of `n` without leading zeros: in base sixteen where `hex`
/// holds, else in base ten.
pub open spec fn number_text(n: int, hex: bool) -> Seq<char>
    decreases n,
{
    if hex {
        if n < 16 {
            seq![digit_char(n)]
        } else {
            number_text(n / 16, hex).push(digit_char(n % 16))
        }
    } else {
        if n < 10 {
            seq![digit_char(n)]
        } else {
            number_text(n / 10, hex).push(digit_char(n % 10))
        }
    }
}

/// The text of an IPv4 address: its octets in decimal, with dots between.
pub open spec fn ipv4_text(a: Seq<u8>) -> Seq<char> {
    number_text(a[0] as int, false) + seq!['.'] + number_text(a[1] as int, false) + seq!['.']
        + number_text(a[2] as int, false) + seq!['.'] + number_text(a[3] as int, false)
}

/// The text of the first `n` segments of an IPv6 address: each in
/// hexadecimal, with colons between.
pub open spec fn segments_text(s: Seq<u16>, n: int) -> Seq<char>
    decreases n,
{
    if n <= 0 {
        seq![]
    } else if n == 1 {
        number_text(s[0] as int, true)
    } else {
        segments_text(s, n - 1) + seq![':'] + number_text(s[n - 1] as int, true)
    }
}

/// The text of an address. An IPv6 address is written in full, all eight
/// segments, none abbreviated.
pub open spec fn ip_text(ip: IpAddress) -> Seq<char> {
    match ip {
        IpAddress::V4(a) => ipv4_text(a@),
        IpAddress::V6(s) => segments_text(s@, 8),
    }
}

fn digit_str(d: u16) -> (r: &'static str)
    requires
        d < 16,
    ensures
        r@ == seq![digit_char(d as int)],
{
    proof {
        reveal_strlit("0");
        reveal_strlit("1");
        reveal_strlit("2");
        reveal_strlit("3");
        reveal_strlit("4");
        reveal_strlit("5");
        reveal_strlit("6");
        reveal_strlit("7");
        reveal_strlit("8");
        reveal_strlit("9");
        reveal_strlit("a");
        reveal_strlit("b");
        reveal_strlit("c");
        reveal_strlit("d");
        reveal_strlit("e");
        reveal_strlit("f");
    }
    let r = if d == 0 {
        "0"
    } else if d == 1 {
        "1"
    } else if d == 2 {
        "2"
    } else if d == 3 {
        "3"
    } else if d == 4 {
        "4"
    } else if d == 5 {
        "5"
    } else if d == 6 {
        "6"
    } else if d == 7 {
        "7"
    } else if d == 8 {
        "8"
    } else if d == 9 {
        "9"
    } else if d == 10 {
        "a"
    } else if d == 11 {
        "b"
    } else if d == 12 {
        "c"
    } else if d == 13 {
        "d"
    } else if d == 14 {
        "e"
    } else {
        "f"
    };
    assert(r@ =~= seq![digit_char(d as int)]);
    r
}

/// Appends the digits of `n` to `out`, in base sixteen or ten.
fn push_number(out: &mut String, n: u16, hex: bool)
    ensures
        final(out)@ == old(out)@ + number_text(n as int, hex),
    decreases n,
{
    let base: u16 = if hex {
        16
    } else {
        10
    };
    if n < base {
        out.append(digit_str(n));
    } else {
        push_number(out, n / base, hex);
        out.append(digit_str(n % base));
        assert(out@ =~= old(out)@ + number_text(n as int, hex));
    }
}

impl IpAddress {
    /// The address as text.
    pub fn to_text(&self) -> (r: String)
        ensures
            r@ == ip_text(*self),
    {
        let mut out = String::new();
        proof {
            reveal_strlit(".");
            reveal_strlit(":");
        }
        match self {
            IpAddress::V4(a) => {
                push_number(&mut out, a[0] as u16, false);
                out.append(".");
                push_number(&mut out, a[1] as u16, false);
                out.append(".");
                push_number(&mut out, a[2] as u16, false);
                out.append(".");
                push_number(&mut out, a[3] as u16, false);
                assert(out@ =~= ipv4_text(a@));
            },
            IpAddress::V6(s) => {
                let mut i: usize = 0;
                while i < 8
                    invariant
                        i <= 8,
                        out@ == segments_text(s@, i as int),
                        ":"@ == seq![':'],
                    decreases 8 - i,
                {
                    if i > 0 {
                        out.append(":");
                    }
                    push_number(&mut out, s[i], true);
                    assert(out@ =~= segments_text(s@, i + 1));
                    i += 1;
                }
            },
        }
        out
    }
}

} // verus!
