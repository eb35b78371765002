//! What is written can be read: the text of an endpoint reads back as that
//! endpoint.
use crate::net::render::{
    dec_chars, digit_char, group_at, hex_chars, ipv6_chars, longest_zeros, maps_ipv4, quad_chars,
    run_chars, socket_v4_chars, socket_v6_chars, zeros_from,
};
use crate::net::syntax::{
    all_digits, all_hex_digits, dec_value, group_text, groups_bits,
    hex_digit_value, hex_value, ipv4_value, ipv6_groups, ipv6_value, is_digit, is_hex_digit,
    lemma_first_of, lemma_first_of_is, lemma_first_pair_is, octet_text, quad_bits,
    run_groups, socket_v4_value, socket_v6_value, span, split, zero_groups, CLOSE, COLON, DOT,
    OPEN, PERCENT,
};
use crate::net::{address_of, AddrView, SocketAddr, SLASH};
use vstd::prelude::*;
use vstd::string::StringSliceAdditionalSpecFns;
use vstd::utf8::{encode_scalar, encode_utf8, is_ascii_chars, is_ascii_chars_encode_utf8};

verus! {

/// The bytes of a text of one-byte characters.
pub open spec fn bytes(cs: Seq<char>) -> Seq<u8> {
    Seq::new(cs.len(), |i: int| cs[i] as u8)
}

/// No byte of `s` is `b`.
pub open spec fn free_of(s: Seq<u8>, b: u8) -> bool {
    forall|i: int| 0 <= i < s.len() ==> #[trigger] s[i] != b
}

proof fn lemma_bytes_push(a: Seq<char>, c: char)
    ensures
        bytes(a.push(c)) == bytes(a).push(c as u8),
{
    assert(bytes(a.push(c)) =~= bytes(a).push(c as u8));
}

proof fn lemma_digit_byte(d: nat)
    requires
        d < 16,
    ensures
        digit_char(d) as u8 == if d < 10 {
            48 + d
        } else {
            87 + d
        },
        is_hex_digit(digit_char(d) as u8),
        hex_digit_value(digit_char(d) as u8) == d,
        d < 10 ==> is_digit(digit_char(d) as u8),
{
}

/// A number in decimal is a string of digits that writes that number and
/// has no needless zero in front.
proof fn lemma_dec_text(n: nat)
    ensures
        bytes(dec_chars(n)).len() >= 1,
        all_digits(bytes(dec_chars(n))),
        dec_value(bytes(dec_chars(n))) == n,
        n >= 1 ==> bytes(dec_chars(n))[0] != 48,
        n < 10 ==> bytes(dec_chars(n)).len() == 1,
        n < 100 ==> bytes(dec_chars(n)).len() <= 2,
        n < 1000 ==> bytes(dec_chars(n)).len() <= 3,
    decreases n,
{
    let t = bytes(dec_chars(n));
    if n < 10 {
        lemma_digit_byte(n);
        assert(t =~= seq![digit_char(n) as u8]);
        assert(t.drop_last() =~= Seq::<u8>::empty());
        assert(dec_value(t.drop_last()) == 0);
    } else {
        lemma_dec_text(n / 10);
        lemma_digit_byte(n % 10);
        let p = bytes(dec_chars(n / 10));
        lemma_bytes_push(dec_chars(n / 10), digit_char(n % 10));
        assert(t == p.push(digit_char(n % 10) as u8));
        assert(t.drop_last() =~= p);
        assert(t[0] == p[0]);
        assert forall|i: int| 0 <= i < t.len() implies is_digit(#[trigger] t[i]) by {
            if i < p.len() {
                assert(t[i] == p[i]);
            }
        }
    }
}

/// A group in hexadecimal is a string of one to four digits that writes
/// that group.
proof fn lemma_hex_text(n: nat)
    requires
        n <= 0xffff,
    ensures
        group_text(bytes(hex_chars(n))),
        hex_value(bytes(hex_chars(n))) == n,
        n < 0x10 ==> bytes(hex_chars(n)).len() == 1,
        n < 0x100 ==> bytes(hex_chars(n)).len() <= 2,
        n < 0x1000 ==> bytes(hex_chars(n)).len() <= 3,
    decreases n,
{
    let t = bytes(hex_chars(n));
    if n < 16 {
        lemma_digit_byte(n);
        assert(t =~= seq![digit_char(n) as u8]);
        assert(t.drop_last() =~= Seq::<u8>::empty());
        assert(hex_value(t.drop_last()) == 0);
    } else {
        lemma_hex_text(n / 16);
        lemma_digit_byte(n % 16);
        let p = bytes(hex_chars(n / 16));
        lemma_bytes_push(hex_chars(n / 16), digit_char(n % 16));
        assert(t == p.push(digit_char(n % 16) as u8));
        assert(t.drop_last() =~= p);
        assert forall|i: int| 0 <= i < t.len() implies is_hex_digit(#[trigger] t[i]) by {
            if i < p.len() {
                assert(t[i] == p[i]);
            }
        }
    }
}

/// A text without separator is one part.
proof fn lemma_split_none(s: Seq<u8>, sep: u8)
    requires
        free_of(s, sep),
    ensures
        split(s, sep) == seq![s],
{
    lemma_first_of_is(s, sep, s.len() as int);
}

/// A text splits at its first separator.
proof fn lemma_split_at(x: Seq<u8>, y: Seq<u8>, sep: u8)
    requires
        free_of(x, sep),
    ensures
        split(x + seq![sep] + y, sep) == seq![x] + split(y, sep),
{
    let s = x + seq![sep] + y;
    lemma_first_of_is(s, sep, x.len() as int);
    assert(s.take(x.len() as int) =~= x);
    assert(s.skip(x.len() as int + 1) =~= y);
}

/// Digits hold no byte that is not a digit.
proof fn lemma_digits_free_of(s: Seq<u8>, b: u8)
    requires
        all_digits(s),
        !is_digit(b),
    ensures
        free_of(s, b),
{
}

/// Hexadecimal digits hold no byte that is not one.
proof fn lemma_hex_free_of(s: Seq<u8>, b: u8)
    requires
        all_hex_digits(s),
        !is_hex_digit(b),
    ensures
        free_of(s, b),
{
}

/// The four parts of a dotted quad, as bytes.
pub open spec fn quad_parts(ip: u32) -> Seq<Seq<u8>> {
    seq![
        bytes(dec_chars((ip / 0x100_0000) as nat)),
        bytes(dec_chars((ip / 0x1_0000 % 256) as nat)),
        bytes(dec_chars((ip / 0x100 % 256) as nat)),
        bytes(dec_chars((ip % 256) as nat)),
    ]
}

/// A dotted quad is its four parts with dots between them.
proof fn lemma_quad_bytes(ip: u32)
    ensures
        bytes(quad_chars(ip)) == quad_parts(ip)[0] + seq![DOT] + (quad_parts(ip)[1] + seq![DOT] + (
        quad_parts(ip)[2] + seq![DOT] + quad_parts(ip)[3])),
{
    let p = quad_parts(ip);
    assert(bytes(quad_chars(ip)) =~= p[0] + seq![DOT] + (p[1] + seq![DOT] + (p[2] + seq![DOT]
        + p[3])));
}

/// A dotted quad reads back as its address, and holds digits and dots only.
proof fn lemma_quad_text(ip: u32)
    ensures
        ipv4_value(bytes(quad_chars(ip))) == Some(ip),
        forall|i: int|
            0 <= i < bytes(quad_chars(ip)).len() ==> is_digit(#[trigger] bytes(quad_chars(ip))[i])
                || bytes(quad_chars(ip))[i] == DOT,
        exists|i: int| 0 <= i < bytes(quad_chars(ip)).len() && bytes(quad_chars(ip))[i] == DOT,
        bytes(quad_chars(ip)).len() >= 7,
{
    let p = quad_parts(ip);
    let t = bytes(quad_chars(ip));
    lemma_quad_bytes(ip);
    lemma_dec_text((ip / 0x100_0000) as nat);
    lemma_dec_text((ip / 0x1_0000 % 256) as nat);
    lemma_dec_text((ip / 0x100 % 256) as nat);
    lemma_dec_text((ip % 256) as nat);
    lemma_digits_free_of(p[0], DOT);
    lemma_digits_free_of(p[1], DOT);
    lemma_digits_free_of(p[2], DOT);
    lemma_digits_free_of(p[3], DOT);
    let r2 = p[2] + seq![DOT] + p[3];
    let r1 = p[1] + seq![DOT] + r2;
    lemma_split_none(p[3], DOT);
    lemma_split_at(p[2], p[3], DOT);
    lemma_split_at(p[1], r2, DOT);
    lemma_split_at(p[0], r1, DOT);
    assert(split(t, DOT) =~= p);
    assert(octet_text(p[0]));
    assert(octet_text(p[1]));
    assert(octet_text(p[2]));
    assert(octet_text(p[3]));
    assert(quad_bits(
        (ip / 0x100_0000) as nat,
        (ip / 0x1_0000 % 256) as nat,
        (ip / 0x100 % 256) as nat,
        (ip % 256) as nat,
    ) == ip);
    assert(t[p[0].len() as int] == DOT);
    assert forall|i: int| 0 <= i < t.len() implies is_digit(#[trigger] t[i]) || t[i] == DOT by {
        let a = p[0].len();
        let b = a + 1 + p[1].len();
        let c = b + 1 + p[2].len();
        if i < a {
            assert(t[i] == p[0][i]);
        } else if i == a {
        } else if i < b {
            assert(t[i] == p[1][i - a - 1]);
        } else if i == b {
        } else if i < c {
            assert(t[i] == p[2][i - b - 1]);
        } else if i == c {
        } else {
            assert(t[i] == p[3][i - c - 1]);
        }
    }
}

/// The groups from `a` up to but without `b`.
pub open spec fn groups_between(ip: u128, a: int, b: int) -> Seq<u16> {
    Seq::new((b - a) as nat, |i: int| group_at(ip, a + i) as u16)
}

/// The groups from `a` up to but without `b`, each as hexadecimal bytes.
pub open spec fn group_texts(ip: u128, a: int, b: int) -> Seq<Seq<u8>> {
    Seq::new((b - a) as nat, |i: int| bytes(hex_chars(group_at(ip, a + i))))
}

proof fn lemma_group_at_bound(ip: u128, i: int)
    ensures
        group_at(ip, i) <= 0xffff,
{
}

/// A run of groups is its first group, then a colon and the rest.
proof fn lemma_run_bytes(ip: u128, a: int, b: int)
    requires
        0 <= a < b <= 8,
    ensures
        a + 1 == b ==> bytes(run_chars(ip, a, b)) == bytes(hex_chars(group_at(ip, a))),
        a + 1 < b ==> bytes(run_chars(ip, a, b)) == bytes(hex_chars(group_at(ip, a))) + seq![COLON]
            + bytes(run_chars(ip, a + 1, b)),
{
    if a + 1 < b {
        assert(bytes(run_chars(ip, a, b)) =~= bytes(hex_chars(group_at(ip, a))) + seq![COLON]
            + bytes(run_chars(ip, a + 1, b)));
    }
}

/// A run of groups splits at its colons into the texts of its groups. It
/// holds hexadecimal digits and colons only, no colon at either end, and no
/// two colons in a row.
proof fn lemma_run_split(ip: u128, a: int, b: int)
    requires
        0 <= a < b <= 8,
    ensures
        split(bytes(run_chars(ip, a, b)), COLON) == group_texts(ip, a, b),
        bytes(run_chars(ip, a, b)).len() >= 1,
        bytes(run_chars(ip, a, b))[0] != COLON,
        bytes(run_chars(ip, a, b)).last() != COLON,
        forall|i: int|
            0 <= i < bytes(run_chars(ip, a, b)).len() ==> is_hex_digit(
                #[trigger] bytes(run_chars(ip, a, b))[i],
            ) || bytes(run_chars(ip, a, b))[i] == COLON,
        forall|i: int|
            0 <= i && i + 1 < bytes(run_chars(ip, a, b)).len() ==> !(#[trigger] bytes(
                run_chars(ip, a, b),
            )[i] == COLON && bytes(run_chars(ip, a, b))[i + 1] == COLON),
    decreases b - a,
{
    let t = bytes(run_chars(ip, a, b));
    let g = bytes(hex_chars(group_at(ip, a)));
    lemma_group_at_bound(ip, a);
    lemma_hex_text(group_at(ip, a));
    lemma_hex_free_of(g, COLON);
    lemma_run_bytes(ip, a, b);
    if a + 1 == b {
        lemma_split_none(g, COLON);
        assert(split(t, COLON) =~= group_texts(ip, a, b));
    } else {
        let r = bytes(run_chars(ip, a + 1, b));
        lemma_run_split(ip, a + 1, b);
        lemma_split_at(g, r, COLON);
        assert(split(t, COLON) =~= group_texts(ip, a, b)) by {
            assert(split(t, COLON) == seq![g] + group_texts(ip, a + 1, b));
            assert forall|i: int| 0 <= i < b - a implies (seq![g] + group_texts(ip, a + 1, b))[i]
                == group_texts(ip, a, b)[i] by {
                if i > 0 {
                    assert(group_texts(ip, a + 1, b)[i - 1] == bytes(
                        hex_chars(group_at(ip, a + 1 + (i - 1))),
                    ));
                }
            }
        }
        let n = g.len() as int;
        assert(t[0] == g[0]);
        assert(t.last() == r.last());
        assert forall|i: int| 0 <= i < t.len() implies is_hex_digit(#[trigger] t[i]) || t[i]
            == COLON by {
            if i < n {
                assert(t[i] == g[i]);
            } else if i > n {
                assert(t[i] == r[i - n - 1]);
            }
        }
        assert forall|i: int| 0 <= i && i + 1 < t.len() implies !(#[trigger] t[i] == COLON && t[i
            + 1] == COLON) by {
            if i < n {
                assert(t[i] == g[i]);
            } else if i == n {
                assert(t[i + 1] == r[0]);
            } else {
                assert(t[i] == r[i - n - 1]);
                assert(t[i + 1] == r[i - n]);
            }
        }
    }
}

/// A run of groups reads back as its groups; the empty run has none.
proof fn lemma_run_groups(ip: u128, a: int, b: int, quad_allowed: bool)
    requires
        0 <= a <= b <= 8,
    ensures
        run_groups(bytes(run_chars(ip, a, b)), quad_allowed) == Some(groups_between(ip, a, b)),
{
    let t = bytes(run_chars(ip, a, b));
    if a == b {
        assert(t =~= Seq::<u8>::empty());
        assert(groups_between(ip, a, b) =~= Seq::<u16>::empty());
    } else {
        lemma_run_split(ip, a, b);
        let p = split(t, COLON);
        let lead = p.drop_last();
        assert forall|i: int| 0 <= i < p.len() implies group_text(#[trigger] p[i]) && hex_value(
            p[i],
        ) == group_at(ip, a + i) by {
            lemma_group_at_bound(ip, a + i);
            lemma_hex_text(group_at(ip, a + i));
        }
        assert forall|i: int| 0 <= i < lead.len() implies group_text(#[trigger] lead[i]) by {
            assert(lead[i] == p[i]);
        }
        assert(group_text(p.last()));
        assert(Seq::new(p.len(), |i: int| hex_value(p[i]) as u16) =~= groups_between(ip, a, b));
    }
}

/// Where `zeros_from` counts `n` groups, those `n` groups are zero.
proof fn lemma_zeros_from(ip: u128, i: int)
    requires
        0 <= i <= 8,
    ensures
        0 <= zeros_from(ip, i) <= 8 - i,
        forall|k: int| i <= k < i + zeros_from(ip, i) ==> #[trigger] group_at(ip, k) == 0,
    decreases 8 - i,
{
    if i < 8 && group_at(ip, i) == 0 {
        lemma_zeros_from(ip, i + 1);
    }
}

/// The longest run of zero groups lies within the address and holds zero
/// groups only.
proof fn lemma_longest_zeros(ip: u128, from: int)
    requires
        0 <= from <= 8,
    ensures
        0 <= longest_zeros(ip, from).1,
        longest_zeros(ip, from).1 > 0 ==> from <= longest_zeros(ip, from).0 && longest_zeros(
            ip,
            from,
        ).0 + longest_zeros(ip, from).1 <= 8,
        forall|k: int|
            longest_zeros(ip, from).0 <= k < longest_zeros(ip, from).0 + longest_zeros(ip, from).1
                ==> #[trigger] group_at(ip, k) == 0,
    decreases 8 - from,
{
    if from < 8 {
        lemma_longest_zeros(ip, from + 1);
        lemma_zeros_from(ip, from);
    }
}

/// The first `n` groups write the address without its last `8 - n` groups.
proof fn lemma_prefix_bits(ip: u128, n: int)
    requires
        0 <= n <= 8,
    ensures
        groups_bits(groups_between(ip, 0, n)) == ip as nat / span(8 - n),
    decreases n,
{
    let g = groups_between(ip, 0, n);
    if n > 0 {
        lemma_prefix_bits(ip, n - 1);
        assert(g.drop_last() =~= groups_between(ip, 0, n - 1));
        assert(g.last() == group_at(ip, n - 1) as u16);
        lemma_group_at_bound(ip, n - 1);
        let x = ip as nat;
        let y = x / span(8 - n);
        assert(span(9 - n) == span(8 - n) * 65536);
        vstd::arithmetic::div_mod::lemma_div_denominator(x as int, span(8 - n) as int, 65536);
        vstd::arithmetic::div_mod::lemma_fundamental_div_mod(y as int, 65536);
        assert(x / span(9 - n) == y / 65536);
        assert(x / span(9 - n) * 65536 + y % 0x1_0000 == y);
        assert(g.last() as nat == group_at(ip, n - 1));
        assert(groups_bits(g) == groups_bits(g.drop_last()) * 65536 + g.last() as nat);
        assert(groups_bits(g.drop_last()) == x / span(9 - n));
    } else {
        assert(g.len() == 0);
        assert(groups_bits(g) == 0);
        assert(ip as nat / span(8) == 0) by {
            vstd::arithmetic::div_mod::lemma_basic_div(ip as int, span(8) as int);
        }
    }
}

/// The eight groups of an address write that address.
proof fn lemma_groups_recompose(ip: u128)
    ensures
        groups_bits(groups_between(ip, 0, 8)) == ip,
{
    lemma_prefix_bits(ip, 8);
}

/// The first part of a text that does not start with a separator starts as
/// the text does.
proof fn lemma_split_head(s: Seq<u8>, sep: u8)
    requires
        s.len() > 0,
        s[0] != sep,
    ensures
        split(s, sep).len() >= 1,
        split(s, sep)[0].len() >= 1,
        split(s, sep)[0][0] == s[0],
{
    lemma_first_of(s, sep);
}

/// A text in square brackets is no dotted quad with a port.
proof fn lemma_bracket_is_no_v4(t: Seq<u8>)
    requires
        t.len() > 0,
        t[0] == OPEN,
    ensures
        socket_v4_value(t) is None,
{
    lemma_split_head(t, COLON);
    let p0 = split(t, COLON)[0];
    lemma_split_head(p0, DOT);
    let q0 = split(p0, DOT)[0];
    assert(!is_digit(q0[0]));
    assert(!octet_text(q0));
}

/// The text of the group `ffff`.
proof fn lemma_ffff()
    ensures
        group_text(seq![102u8, 102u8, 102u8, 102u8]),
        hex_value(seq![102u8, 102u8, 102u8, 102u8]) == 0xffff,
{
    let f4 = seq![102u8, 102u8, 102u8, 102u8];
    let f3 = seq![102u8, 102u8, 102u8];
    let f2 = seq![102u8, 102u8];
    let f1 = seq![102u8];
    assert(f4.drop_last() =~= f3);
    assert(f3.drop_last() =~= f2);
    assert(f2.drop_last() =~= f1);
    assert(f1.drop_last() =~= Seq::<u8>::empty());
    assert(hex_value(f1.drop_last()) == 0);
    assert(hex_value(f1) == 15);
    assert(hex_value(f2) == 255);
    assert(hex_value(f3) == 4095);
}

/// The value of the `i`-th group of a number given by quotient and
/// remainder at that group's place.
proof fn lemma_group_of_parts(ip: u128, i: int, above: nat, g: nat, below: nat)
    requires
        0 <= i < 8,
        g < 0x1_0000,
        below < span(7 - i),
        ip as nat == (above * 0x1_0000 + g) * span(7 - i) + below,
    ensures
        group_at(ip, i) == g,
{
    let x = ip as int;
    let place = span(7 - i) as int;
    let upper = (above * 0x1_0000 + g) as int;
    vstd::arithmetic::div_mod::lemma_fundamental_div_mod_converse(x, place, upper, below as int);
    vstd::arithmetic::div_mod::lemma_fundamental_div_mod_converse(
        upper,
        0x1_0000,
        above as int,
        g as int,
    );
}

/// The groups of an address that maps an IPv4 address.
proof fn lemma_mapped_groups(ip: u128)
    requires
        maps_ipv4(ip),
    ensures
        groups_between(ip, 0, 8) == seq![
            0u16,
            0u16,
            0u16,
            0u16,
            0u16,
            0xffffu16,
            ((ip % 0x1_0000_0000) / 65536) as u16,
            ((ip % 0x1_0000_0000) % 65536) as u16,
        ],
{
    let x = ip as nat;
    let q = (ip % 0x1_0000_0000) as nat;
    let hi = q / 65536;
    let lo = q % 65536;
    vstd::arithmetic::div_mod::lemma_fundamental_div_mod(ip as int, 0x1_0000_0000);
    vstd::arithmetic::div_mod::lemma_fundamental_div_mod(q as int, 65536);
    assert(x == 0xffff * 0x1_0000_0000 + q);
    assert(q == 65536 * hi + lo);
    lemma_group_of_parts(ip, 0, 0, 0, x);
    lemma_group_of_parts(ip, 1, 0, 0, x);
    lemma_group_of_parts(ip, 2, 0, 0, x);
    lemma_group_of_parts(ip, 3, 0, 0, x);
    lemma_group_of_parts(ip, 4, 0, 0, x);
    lemma_group_of_parts(ip, 5, 0, 0xffff, q);
    lemma_group_of_parts(ip, 6, 0xffff, hi, lo);
    lemma_group_of_parts(ip, 7, 0xffff * 0x1_0000 + hi, lo, 0);
    assert(groups_between(ip, 0, 8) =~= seq![
        0u16,
        0u16,
        0u16,
        0u16,
        0u16,
        0xffffu16,
        hi as u16,
        lo as u16,
    ]);
}

/// The group `ffff`, a colon and a dotted quad read as three groups.
proof fn lemma_mapped_tail(q: u32)
    ensures
        run_groups(seq![102u8, 102u8, 102u8, 102u8] + seq![COLON] + bytes(quad_chars(q)), true)
            == Some(seq![0xffffu16, (q / 65536) as u16, (q % 65536) as u16]),
{
    let qt = bytes(quad_chars(q));
    let f4 = seq![102u8, 102u8, 102u8, 102u8];
    let tail = f4 + seq![COLON] + qt;
    lemma_quad_text(q);
    lemma_ffff();
    lemma_hex_free_of(f4, COLON);
    assert(free_of(qt, COLON));
    lemma_split_at(f4, qt, COLON);
    lemma_split_none(qt, COLON);
    let p = split(tail, COLON);
    assert(p =~= seq![f4, qt]);
    let lead = p.drop_last();
    assert(lead =~= seq![f4]);
    assert(p.last() == qt);
    assert(!group_text(qt)) by {
        let i = choose|i: int| 0 <= i < qt.len() && qt[i] == DOT;
        assert(!is_hex_digit(qt[i]));
    }
    assert(group_text(lead[0]));
    assert(Seq::new(lead.len(), |i: int| hex_value(lead[i]) as u16) + seq![
        (q / 65536) as u16,
        (q % 65536) as u16,
    ] =~= seq![0xffffu16, (q / 65536) as u16, (q % 65536) as u16]);
}

/// An address that maps an IPv4 address reads back from its text.
proof fn lemma_mapped_text(ip: u128)
    requires
        maps_ipv4(ip),
    ensures
        ipv6_groups(bytes(ipv6_chars(ip))) == Some(groups_between(ip, 0, 8)),
        forall|i: int|
            0 <= i < bytes(ipv6_chars(ip)).len() ==> is_hex_digit(
                #[trigger] bytes(ipv6_chars(ip))[i],
            ) || bytes(ipv6_chars(ip))[i] == COLON || bytes(ipv6_chars(ip))[i] == DOT,
        bytes(ipv6_chars(ip)).len() >= 2,
{
    let q = (ip % 0x1_0000_0000) as u32;
    let qt = bytes(quad_chars(q));
    let f4 = seq![102u8, 102u8, 102u8, 102u8];
    let t = bytes(ipv6_chars(ip));
    let tail = f4 + seq![COLON] + qt;
    lemma_quad_text(q);
    lemma_mapped_tail(q);
    lemma_mapped_groups(ip);
    assert(t =~= seq![COLON, COLON] + tail);
    lemma_first_pair_is(t, COLON, 0);
    assert(t.take(0) =~= Seq::<u8>::empty());
    assert(t.skip(2) =~= tail);
    let tg = seq![0xffffu16, (q / 65536) as u16, (q % 65536) as u16];
    let g = Seq::<u16>::empty() + zero_groups(8 - 0 - 3) + tg;
    assert(ipv6_groups(t) == Some(g));
    assert(g =~= groups_between(ip, 0, 8));
    assert forall|i: int| 0 <= i < t.len() implies is_hex_digit(#[trigger] t[i]) || t[i] == COLON
        || t[i] == DOT by {
        if i >= 7 {
            assert(t[i] == qt[i - 7]);
        }
    }
}

/// An address reads back from its text, which holds hexadecimal digits,
/// colons and dots only.
proof fn lemma_ipv6_text(ip: u128)
    ensures
        ipv6_value(bytes(ipv6_chars(ip))) == Some(ip),
        free_of(bytes(ipv6_chars(ip)), CLOSE),
        free_of(bytes(ipv6_chars(ip)), PERCENT),
        bytes(ipv6_chars(ip)).len() >= 2,
{
    let t = bytes(ipv6_chars(ip));
    let z = longest_zeros(ip, 0);
    lemma_groups_recompose(ip);
    if maps_ipv4(ip) {
        lemma_mapped_text(ip);
    } else if z.1 > 1 {
        lemma_longest_zeros(ip, 0);
        let a = z.0;
        let b = z.0 + z.1;
        let ht = bytes(run_chars(ip, 0, a));
        let tt = bytes(run_chars(ip, b, 8));
        assert(t =~= ht + seq![COLON, COLON] + tt);
        if a > 0 {
            lemma_run_split(ip, 0, a);
        } else {
            assert(ht =~= Seq::<u8>::empty());
        }
        if b < 8 {
            lemma_run_split(ip, b, 8);
        } else {
            assert(tt =~= Seq::<u8>::empty());
        }
        let j = ht.len() as int;
        assert forall|k: int| 0 <= k < j && k + 1 < t.len() implies !(#[trigger] t[k] == COLON
            && t[k + 1] == COLON) by {
            assert(t[k] == ht[k]);
            if k + 1 < j {
                assert(t[k + 1] == ht[k + 1]);
            } else {
                assert(ht.last() == ht[k]);
            }
        }
        lemma_first_pair_is(t, COLON, j);
        assert(t.take(j) =~= ht);
        assert(t.skip(j + 2) =~= tt);
        lemma_run_groups(ip, 0, a, false);
        lemma_run_groups(ip, b, 8, true);
        let g = groups_between(ip, 0, a) + zero_groups(8 - a - (8 - b)) + groups_between(ip, b, 8);
        assert(ipv6_groups(t) == Some(g));
        assert(g =~= groups_between(ip, 0, 8)) by {
            assert forall|i: int| 0 <= i < 8 implies g[i] == groups_between(ip, 0, 8)[i] by {
                if a <= i < b {
                    assert(group_at(ip, i) == 0);
                }
            }
        }
        assert forall|i: int| 0 <= i < t.len() implies #[trigger] t[i] != CLOSE && t[i]
            != PERCENT by {
            if i < j {
                assert(t[i] == ht[i]);
            } else if i >= j + 2 {
                assert(t[i] == tt[i - j - 2]);
            }
        }
    } else {
        lemma_run_split(ip, 0, 8);
        lemma_first_pair_is(t, COLON, t.len() as int);
        lemma_run_groups(ip, 0, 8, true);
    }
}

/// An IPv4 endpoint reads back from its text.
proof fn lemma_socket_v4_text(ip: u32, port: u16)
    ensures
        socket_v4_value(bytes(socket_v4_chars(ip, port))) == Some((ip, port)),
        bytes(socket_v4_chars(ip, port)).len() > 0,
        is_digit(bytes(socket_v4_chars(ip, port))[0]),
{
    let q = bytes(quad_chars(ip));
    let p = bytes(dec_chars(port as nat));
    let t = bytes(socket_v4_chars(ip, port));
    lemma_quad_text(ip);
    lemma_dec_text(port as nat);
    assert(t =~= q + seq![COLON] + p);
    assert(free_of(q, COLON));
    lemma_digits_free_of(p, COLON);
    lemma_split_at(q, p, COLON);
    lemma_split_none(p, COLON);
    assert(split(t, COLON) =~= seq![q, p]);
    assert(t[0] == q[0]);
}

/// An IPv6 endpoint reads back from its text.
proof fn lemma_socket_v6_text(ip: u128, port: u16, scope_id: u32)
    ensures
        socket_v4_value(bytes(socket_v6_chars(ip, port, scope_id))) is None,
        socket_v6_value(bytes(socket_v6_chars(ip, port, scope_id))) == Some((ip, port, scope_id)),
        bytes(socket_v6_chars(ip, port, scope_id)).len() > 0,
        bytes(socket_v6_chars(ip, port, scope_id))[0] == OPEN,
{
    let it = bytes(ipv6_chars(ip));
    let p = bytes(dec_chars(port as nat));
    let d = bytes(dec_chars(scope_id as nat));
    let zt = if scope_id == 0 {
        Seq::<u8>::empty()
    } else {
        seq![PERCENT] + d
    };
    let t = bytes(socket_v6_chars(ip, port, scope_id));
    lemma_ipv6_text(ip);
    lemma_dec_text(port as nat);
    lemma_dec_text(scope_id as nat);
    assert(t =~= seq![OPEN] + (it + zt + seq![CLOSE] + (seq![COLON] + p)));
    lemma_bracket_is_no_v4(t);
    let body = t.skip(1);
    let inner = it + zt;
    let rest = seq![COLON] + p;
    assert(body =~= inner + seq![CLOSE] + rest);
    lemma_digits_free_of(d, CLOSE);
    assert(free_of(inner, CLOSE)) by {
        assert forall|i: int| 0 <= i < inner.len() implies #[trigger] inner[i] != CLOSE by {
            if i < it.len() {
                assert(inner[i] == it[i]);
            } else if i > it.len() {
                assert(inner[i] == d[i - it.len() - 1]);
            }
        }
    }
    lemma_first_of_is(body, CLOSE, inner.len() as int);
    assert(body.take(inner.len() as int) =~= inner);
    assert(body.skip(inner.len() as int + 1) =~= rest);
    assert(rest.skip(1) =~= p);
    lemma_first_of_is(inner, PERCENT, it.len() as int);
    assert(inner.take(it.len() as int) =~= it);
    if scope_id != 0 {
        assert(inner.skip(it.len() as int + 1) =~= d);
    }
    assert(t[0] == OPEN);
}

proof fn lemma_ascii_concat(a: Seq<char>, b: Seq<char>)
    requires
        is_ascii_chars(a),
        is_ascii_chars(b),
    ensures
        is_ascii_chars(a + b),
{
    assert forall|i: int| 0 <= i < (a + b).len() implies '\0' <= #[trigger] (a + b)[i]
        <= '\u{7f}' by {
        if i < a.len() {
            assert((a + b)[i] == a[i]);
        } else {
            assert((a + b)[i] == b[i - a.len()]);
        }
    }
}

proof fn lemma_dec_ascii(n: nat)
    ensures
        is_ascii_chars(dec_chars(n)),
    decreases n,
{
    if n >= 10 {
        lemma_dec_ascii(n / 10);
        assert(dec_chars(n) =~= dec_chars(n / 10) + seq![digit_char(n % 10)]);
        lemma_ascii_concat(dec_chars(n / 10), seq![digit_char(n % 10)]);
    }
}

proof fn lemma_hex_ascii(n: nat)
    ensures
        is_ascii_chars(hex_chars(n)),
    decreases n,
{
    if n >= 16 {
        lemma_hex_ascii(n / 16);
        assert(hex_chars(n) =~= hex_chars(n / 16) + seq![digit_char(n % 16)]);
        lemma_ascii_concat(hex_chars(n / 16), seq![digit_char(n % 16)]);
    }
}

proof fn lemma_quad_ascii(ip: u32)
    ensures
        is_ascii_chars(quad_chars(ip)),
{
    let a = dec_chars((ip / 0x100_0000) as nat);
    let b = dec_chars((ip / 0x1_0000 % 256) as nat);
    let c = dec_chars((ip / 0x100 % 256) as nat);
    let d = dec_chars((ip % 256) as nat);
    lemma_dec_ascii((ip / 0x100_0000) as nat);
    lemma_dec_ascii((ip / 0x1_0000 % 256) as nat);
    lemma_dec_ascii((ip / 0x100 % 256) as nat);
    lemma_dec_ascii((ip % 256) as nat);
    lemma_ascii_concat(a, seq!['.']);
    lemma_ascii_concat(a + seq!['.'], b);
    lemma_ascii_concat(a + seq!['.'] + b, seq!['.']);
    lemma_ascii_concat(a + seq!['.'] + b + seq!['.'], c);
    lemma_ascii_concat(a + seq!['.'] + b + seq!['.'] + c, seq!['.']);
    lemma_ascii_concat(a + seq!['.'] + b + seq!['.'] + c + seq!['.'], d);
}

proof fn lemma_run_ascii(ip: u128, a: int, b: int)
    ensures
        is_ascii_chars(run_chars(ip, a, b)),
    decreases b - a,
{
    if a < b {
        lemma_hex_ascii(group_at(ip, a));
        if a + 1 < b {
            lemma_run_ascii(ip, a + 1, b);
            lemma_ascii_concat(hex_chars(group_at(ip, a)), seq![':']);
            lemma_ascii_concat(hex_chars(group_at(ip, a)) + seq![':'], run_chars(ip, a + 1, b));
        }
    }
}

proof fn lemma_ipv6_ascii(ip: u128)
    ensures
        is_ascii_chars(ipv6_chars(ip)),
{
    let z = longest_zeros(ip, 0);
    if maps_ipv4(ip) {
        lemma_quad_ascii((ip % 0x1_0000_0000) as u32);
        lemma_ascii_concat(
            seq![':', ':', 'f', 'f', 'f', 'f', ':'],
            quad_chars((ip % 0x1_0000_0000) as u32),
        );
    } else if z.1 > 1 {
        lemma_run_ascii(ip, 0, z.0);
        lemma_run_ascii(ip, z.0 + z.1, 8);
        lemma_ascii_concat(run_chars(ip, 0, z.0), seq![':', ':']);
        lemma_ascii_concat(run_chars(ip, 0, z.0) + seq![':', ':'], run_chars(ip, z.0 + z.1, 8));
    } else {
        lemma_run_ascii(ip, 0, 8);
    }
}

proof fn lemma_socket_ascii(a: SocketAddr)
    ensures
        is_ascii_chars(a.text()),
{
    match a {
        SocketAddr::V4 { ip, port } => {
            lemma_quad_ascii(ip);
            lemma_dec_ascii(port as nat);
            lemma_ascii_concat(quad_chars(ip), seq![':']);
            lemma_ascii_concat(quad_chars(ip) + seq![':'], dec_chars(port as nat));
        },
        SocketAddr::V6 { ip, port, scope_id } => {
            lemma_ipv6_ascii(ip);
            lemma_dec_ascii(port as nat);
            lemma_dec_ascii(scope_id as nat);
            let i = ipv6_chars(ip);
            lemma_ascii_concat(seq!['['], i);
            if scope_id == 0 {
                lemma_ascii_concat(seq!['['] + i, seq![']', ':']);
                lemma_ascii_concat(seq!['['] + i + seq![']', ':'], dec_chars(port as nat));
            } else {
                let d = dec_chars(scope_id as nat);
                lemma_ascii_concat(seq!['['] + i, seq!['%']);
                lemma_ascii_concat(seq!['['] + i + seq!['%'], d);
                lemma_ascii_concat(seq!['['] + i + seq!['%'] + d, seq![']', ':']);
                lemma_ascii_concat(
                    seq!['['] + i + seq!['%'] + d + seq![']', ':'],
                    dec_chars(port as nat),
                );
            }
        },
    }
}

/// The text of an endpoint reads back as that endpoint: whatever
/// `SocketAddr::to_string` writes, `UnifyAddr::parse` reads as the socket
/// address it was written from, with the same address, port and zone.
pub proof fn lemma_text_reads_back(a: SocketAddr, s: &str)
    requires
        s@ == a.text(),
    ensures
        address_of(s) == Some(AddrView::Socket(a)),
{
    lemma_socket_ascii(a);
    is_ascii_chars_encode_utf8(s@);
    let t = s.spec_bytes();
    assert(t =~= bytes(s@));
    match a {
        SocketAddr::V4 { ip, port } => {
            lemma_socket_v4_text(ip, port);
        },
        SocketAddr::V6 { ip, port, scope_id } => {
            lemma_socket_v6_text(ip, port, scope_id);
        },
    }
}

/// A text that starts with `/` reads as the path that it spells, whatever
/// follows the slash.
pub proof fn lemma_slash_is_path(s: &str)
    requires
        s@.len() > 0,
        s@[0] == '/',
    ensures
        address_of(s) == Some(AddrView::Path(s@)),
{
    let first = encode_scalar(s@[0] as u32);
    assert(47u32 & 0x7F == 47u32) by (bit_vector);
    assert(first =~= seq![SLASH]);
    assert(s.spec_bytes() == first + encode_utf8(s@.drop_first()));
    assert(s.spec_bytes()[0] == SLASH);
}

} // verus!
