//! The text syntax of numeric addresses.
//!
//! The grammar is stated over bytes, by splitting: a dotted quad is four
//! decimal octets between dots, an IPv6 address is hexadecimal groups between
//! colons with at most one `::` standing for a run of zero groups, and a
//! socket address is an address, a colon and a decimal port, the IPv6 address
//! in square brackets. The parsers below are proved to accept exactly the
//! texts of the grammar and to compute the value it assigns to them.
use vstd::prelude::*;

verus! {

/// The byte `.`, which parts the octets of a dotted quad.
pub const DOT: u8 = 46;

/// The byte `:`, which parts the groups of an IPv6 address, and the port
/// from the address.
pub const COLON: u8 = 58;

/// The byte `%`, which parts the zone from an IPv6 address.
pub const PERCENT: u8 = 37;

/// The byte `[`, which opens the IPv6 address of an endpoint.
pub const OPEN: u8 = 91;

/// The byte `]`, which closes the IPv6 address of an endpoint.
pub const CLOSE: u8 = 93;

/// A decimal digit.
pub open spec fn is_digit(b: u8) -> bool {
    48 <= b <= 57
}

/// A hexadecimal digit, in either case.
pub open spec fn is_hex_digit(b: u8) -> bool {
    (48 <= b <= 57) || (97 <= b <= 102) || (65 <= b <= 70)
}

/// The value of a hexadecimal digit.
pub open spec fn hex_digit_value(b: u8) -> nat {
    if 48 <= b <= 57 {
        (b - 48) as nat
    } else if 97 <= b <= 102 {
        (b - 87) as nat
    } else {
        (b - 55) as nat
    }
}

/// Every byte is a decimal digit.
pub open spec fn all_digits(s: Seq<u8>) -> bool {
    forall|i: int| 0 <= i < s.len() ==> is_digit(#[trigger] s[i])
}

/// Every byte is a hexadecimal digit.
pub open spec fn all_hex_digits(s: Seq<u8>) -> bool {
    forall|i: int| 0 <= i < s.len() ==> is_hex_digit(#[trigger] s[i])
}

/// The number that a string of decimal digits writes.
pub open spec fn dec_value(s: Seq<u8>) -> nat
    decreases s.len(),
{
    if s.len() == 0 {
        0
    } else {
        dec_value(s.drop_last()) * 10 + (s.last() - 48) as nat
    }
}

/// The number that a string of hexadecimal digits writes.
pub open spec fn hex_value(s: Seq<u8>) -> nat
    decreases s.len(),
{
    if s.len() == 0 {
        0
    } else {
        hex_value(s.drop_last()) * 16 + hex_digit_value(s.last())
    }
}

/// A decimal number of any length, leading zeros allowed, not above `max`.
pub open spec fn number_text(s: Seq<u8>, max: nat) -> bool {
    s.len() > 0 && all_digits(s) && dec_value(s) <= max
}

/// One part of a dotted quad: one to three digits, no leading zero before
/// another digit, not above 255.
pub open spec fn octet_text(s: Seq<u8>) -> bool {
    &&& 1 <= s.len() <= 3
    &&& all_digits(s)
    &&& (s.len() > 1 ==> s[0] != 48)
    &&& dec_value(s) <= 255
}

/// One group of an IPv6 address: one to four hexadecimal digits.
pub open spec fn group_text(s: Seq<u8>) -> bool {
    1 <= s.len() <= 4 && all_hex_digits(s)
}

/// The index of the first `sep` in `s`, or the length of `s` if there is none.
pub open spec fn first_of(s: Seq<u8>, sep: u8) -> int
    decreases s.len(),
{
    if s.len() == 0 {
        0
    } else if s[0] == sep {
        0
    } else {
        1 + first_of(s.skip(1), sep)
    }
}

/// The parts of `s` between the occurrences of `sep`: one more part than
/// there are separators, empty parts included.
pub open spec fn split(s: Seq<u8>, sep: u8) -> Seq<Seq<u8>>
    decreases s.len(),
{
    let i = first_of(s, sep);
    if 0 <= i < s.len() {
        seq![s.take(i)] + split(s.skip(i + 1), sep)
    } else {
        seq![s]
    }
}

/// `first_of` finds the first separator and nothing before it.
pub proof fn lemma_first_of(s: Seq<u8>, sep: u8)
    ensures
        0 <= first_of(s, sep) <= s.len(),
        first_of(s, sep) < s.len() ==> s[first_of(s, sep)] == sep,
        forall|k: int| 0 <= k < first_of(s, sep) ==> s[k] != sep,
    decreases s.len(),
{
    if s.len() > 0 && s[0] != sep {
        lemma_first_of(s.skip(1), sep);
        assert forall|k: int| 0 <= k < first_of(s, sep) implies s[k] != sep by {
            if k > 0 {
                assert(s.skip(1)[k - 1] == s[k]);
            }
        }
    }
}

/// The first separator is where a scan from the left meets it.
pub proof fn lemma_first_of_is(s: Seq<u8>, sep: u8, j: int)
    requires
        0 <= j <= s.len(),
        forall|k: int| 0 <= k < j ==> s[k] != sep,
        j < s.len() ==> s[j] == sep,
    ensures
        first_of(s, sep) == j,
{
    lemma_first_of(s, sep);
    let f = first_of(s, sep);
    if f < j {
        assert(s[f] == sep);
    }
}

/// The value of up to four hexadecimal digits fits in sixteen bits.
pub proof fn lemma_hex_value_bound(s: Seq<u8>)
    requires
        all_hex_digits(s),
        s.len() <= 4,
    ensures
        hex_value(s) <= 0xffff,
        s.len() <= 3 ==> hex_value(s) <= 0xfff,
        s.len() <= 2 ==> hex_value(s) <= 0xff,
        s.len() <= 1 ==> hex_value(s) <= 0xf,
        s.len() == 0 ==> hex_value(s) == 0,
    decreases s.len(),
{
    if s.len() > 0 {
        assert(all_hex_digits(s.drop_last())) by {
            assert forall|i: int| 0 <= i < s.drop_last().len() implies is_hex_digit(
                #[trigger] s.drop_last()[i],
            ) by {
                assert(s.drop_last()[i] == s[i]);
            }
        }
        assert(is_hex_digit(s[s.len() - 1]));
        lemma_hex_value_bound(s.drop_last());
    }
}

/// A number does not get smaller when more digits follow.
proof fn lemma_dec_value_grows(s: Seq<u8>, n: int)
    requires
        all_digits(s),
        0 <= n <= s.len(),
    ensures
        dec_value(s.take(n)) <= dec_value(s),
    decreases s.len() - n,
{
    if n < s.len() {
        lemma_dec_value_grows(s, n + 1);
        assert(s.take(n + 1).drop_last() =~= s.take(n));
        assert(is_digit(s[n]));
        assert(s.take(n + 1).last() == s[n]);
    } else {
        assert(s.take(n) =~= s);
    }
}

/// The first index of `sep` in `s`, or the length of `s`.
fn find(s: &[u8], sep: u8) -> (j: usize)
    ensures
        j == first_of(s@, sep),
        j <= s@.len(),
{
    let mut j: usize = 0;
    while j < s.len() && s[j] != sep
        invariant
            j <= s@.len(),
            forall|k: int| 0 <= k < j ==> s@[k] != sep,
        decreases s@.len() - j,
    {
        j += 1;
    }
    proof {
        lemma_first_of_is(s@, sep, j as int);
    }
    j
}

/// Reads a decimal number of any length that is not above `max`.
fn number(s: &[u8], max: u32) -> (r: Option<u32>)
    ensures
        r is Some <==> number_text(s@, max as nat),
        r matches Some(v) ==> v == dec_value(s@),
{
    if s.len() == 0 {
        return None;
    }
    let mut acc: u64 = 0;
    let mut i: usize = 0;
    while i < s.len()
        invariant
            i <= s@.len(),
            all_digits(s@.take(i as int)),
            acc == dec_value(s@.take(i as int)),
            acc <= max,
        decreases s@.len() - i,
    {
        let b = s[i];
        if b < 48 || b > 57 {
            proof {
                assert(!is_digit(s@[i as int]));
            }
            return None;
        }
        let next: u64 = acc * 10 + (b - 48) as u64;
        proof {
            assert(s@.take(i + 1).drop_last() =~= s@.take(i as int));
            assert(s@.take(i + 1).last() == b);
            assert(next == dec_value(s@.take(i + 1)));
            assert forall|k: int| 0 <= k < s@.take(i + 1).len() implies is_digit(
                #[trigger] s@.take(i + 1)[k],
            ) by {
                if k < i {
                    assert(s@.take(i as int)[k] == s@[k]);
                }
            }
        }
        if next > max as u64 {
            proof {
                if all_digits(s@) {
                    lemma_dec_value_grows(s@, i + 1);
                }
            }
            return None;
        }
        acc = next;
        i += 1;
    }
    proof {
        assert(s@.take(i as int) =~= s@);
    }
    Some(acc as u32)
}

/// Reads one part of a dotted quad.
fn octet(s: &[u8]) -> (r: Option<u8>)
    ensures
        r is Some <==> octet_text(s@),
        r matches Some(v) ==> v == dec_value(s@),
{
    if s.len() == 0 || s.len() > 3 {
        return None;
    }
    if s.len() > 1 && s[0] == 48 {
        return None;
    }
    match number(s, 255) {
        Some(v) => Some(v as u8),
        None => None,
    }
}

/// Reads one group of an IPv6 address.
fn group(s: &[u8]) -> (r: Option<u16>)
    ensures
        r is Some <==> group_text(s@),
        r matches Some(v) ==> v == hex_value(s@),
{
    if s.len() == 0 || s.len() > 4 {
        return None;
    }
    let mut acc: u16 = 0;
    let mut i: usize = 0;
    while i < s.len()
        invariant
            i <= s@.len(),
            s@.len() <= 4,
            all_hex_digits(s@.take(i as int)),
            acc == hex_value(s@.take(i as int)),
        decreases s@.len() - i,
    {
        let b = s[i];
        let d: u16 = if 48 <= b && b <= 57 {
            (b - 48) as u16
        } else if 97 <= b && b <= 102 {
            (b - 87) as u16
        } else if 65 <= b && b <= 70 {
            (b - 55) as u16
        } else {
            proof {
                assert(!is_hex_digit(s@[i as int]));
            }
            return None;
        };
        proof {
            lemma_hex_value_bound(s@.take(i as int));
            assert(s@.take(i + 1).drop_last() =~= s@.take(i as int));
            assert(s@.take(i + 1).last() == b);
            assert forall|k: int| 0 <= k < s@.take(i + 1).len() implies is_hex_digit(
                #[trigger] s@.take(i + 1)[k],
            ) by {
                if k < i {
                    assert(s@.take(i as int)[k] == s@[k]);
                }
            }
        }
        acc = acc * 16 + d;
        i += 1;
    }
    proof {
        assert(s@.take(i as int) =~= s@);
    }
    Some(acc)
}

/// The parts of `s` between the occurrences of `sep`.
fn split_bytes<'a>(s: &'a [u8], sep: u8) -> (parts: Vec<&'a [u8]>)
    ensures
        parts@.len() == split(s@, sep).len(),
        parts@.len() >= 1,
        forall|i: int| 0 <= i < parts@.len() ==> (#[trigger] parts@[i])@ == split(s@, sep)[i],
{
    let mut parts: Vec<&'a [u8]> = Vec::new();
    let mut rest: &'a [u8] = s;
    let ghost mut done: Seq<Seq<u8>> = Seq::empty();
    loop
        invariant_except_break
            parts@.len() == done.len(),
            forall|i: int| 0 <= i < parts@.len() ==> (#[trigger] parts@[i])@ == done[i],
            split(s@, sep) == done + split(rest@, sep),
        ensures
            parts@.len() == split(s@, sep).len(),
            parts@.len() >= 1,
            forall|i: int| 0 <= i < parts@.len() ==> (#[trigger] parts@[i])@ == split(s@, sep)[i],
        decreases rest@.len(),
    {
        let j = find(rest, sep);
        if j < rest.len() {
            let part = vstd::slice::slice_subrange(rest, 0, j);
            let tail = vstd::slice::slice_subrange(rest, j + 1, rest.len());
            proof {
                assert(part@ =~= rest@.take(j as int));
                assert(tail@ =~= rest@.skip(j + 1));
                assert(done.push(part@) + split(tail@, sep) =~= done + split(rest@, sep));
                done = done.push(part@);
            }
            parts.push(part);
            rest = tail;
        } else {
            proof {
                assert(split(rest@, sep) =~= seq![rest@]);
                assert(done + seq![rest@] =~= done.push(rest@));
                done = done.push(rest@);
            }
            parts.push(rest);
            break;
        }
    }
    parts
}

/// The 32 bits of a dotted quad, first octet highest.
pub open spec fn quad_bits(a: nat, b: nat, c: nat, d: nat) -> nat {
    ((a * 256 + b) * 256 + c) * 256 + d
}

/// The address that a dotted quad writes: four octets between three dots.
pub open spec fn ipv4_value(s: Seq<u8>) -> Option<u32> {
    let p = split(s, DOT);
    if p.len() == 4 && octet_text(p[0]) && octet_text(p[1]) && octet_text(p[2]) && octet_text(
        p[3],
    ) {
        Some(
            quad_bits(dec_value(p[0]), dec_value(p[1]), dec_value(p[2]), dec_value(p[3])) as u32,
        )
    } else {
        None
    }
}

/// The groups that a run without `::` writes: hexadecimal groups between
/// colons, of which the last may be a dotted quad, worth two groups, where
/// `quad_allowed` says so. The empty run has no groups.
pub open spec fn run_groups(s: Seq<u8>, quad_allowed: bool) -> Option<Seq<u16>> {
    let p = split(s, COLON);
    let lead = p.drop_last();
    if s.len() == 0 {
        Some(Seq::empty())
    } else if !(forall|i: int| 0 <= i < lead.len() ==> group_text(#[trigger] lead[i])) {
        None
    } else if group_text(p.last()) {
        Some(Seq::new(p.len(), |i: int| hex_value(p[i]) as u16))
    } else if quad_allowed && ipv4_value(p.last()) is Some {
        let q = ipv4_value(p.last()).unwrap();
        Some(
            Seq::new(lead.len(), |i: int| hex_value(lead[i]) as u16) + seq![
                (q / 65536) as u16,
                (q % 65536) as u16,
            ],
        )
    } else {
        None
    }
}

/// The index of the first `sep` that another `sep` follows, or the length
/// of `s` if there is none.
pub open spec fn first_pair(s: Seq<u8>, sep: u8) -> int
    decreases s.len(),
{
    if s.len() < 2 {
        s.len() as int
    } else if s[0] == sep && s[1] == sep {
        0
    } else {
        1 + first_pair(s.skip(1), sep)
    }
}

/// `n` groups of zero.
pub open spec fn zero_groups(n: int) -> Seq<u16> {
    Seq::new(n as nat, |i: int| 0u16)
}

/// The eight groups that an IPv6 text writes. Without `::` it is a run of
/// exactly eight groups. With `::`, the runs before and after it have at
/// most seven groups together, and zeros fill the gap; no dotted quad stands
/// before the `::`.
pub open spec fn ipv6_groups(s: Seq<u8>) -> Option<Seq<u16>> {
    let i = first_pair(s, COLON);
    if i >= s.len() {
        match run_groups(s, true) {
            Some(g) => if g.len() == 8 {
                Some(g)
            } else {
                None
            },
            None => None,
        }
    } else {
        match (run_groups(s.take(i), false), run_groups(s.skip(i + 2), true)) {
            (Some(h), Some(t)) => if h.len() + t.len() <= 7 {
                Some(h + zero_groups(8 - h.len() - t.len()) + t)
            } else {
                None
            },
            _ => None,
        }
    }
}

/// The number that groups write in base 65536, first group highest.
pub open spec fn groups_bits(g: Seq<u16>) -> nat
    decreases g.len(),
{
    if g.len() == 0 {
        0
    } else {
        groups_bits(g.drop_last()) * 65536 + g.last() as nat
    }
}

/// The address that an IPv6 text writes, as 128 bits.
pub open spec fn ipv6_value(s: Seq<u8>) -> Option<u128> {
    match ipv6_groups(s) {
        Some(g) => Some(groups_bits(g) as u128),
        None => None,
    }
}

/// `first_pair` finds the first doubled separator and none before it.
pub proof fn lemma_first_pair(s: Seq<u8>, sep: u8)
    ensures
        0 <= first_pair(s, sep) <= s.len(),
        first_pair(s, sep) < s.len() ==> first_pair(s, sep) + 1 < s.len() && s[first_pair(s, sep)]
            == sep && s[first_pair(s, sep) + 1] == sep,
        forall|k: int|
            0 <= k < first_pair(s, sep) && k + 1 < s.len() ==> !(#[trigger] s[k] == sep && s[k + 1]
                == sep),
    decreases s.len(),
{
    if s.len() >= 2 && !(s[0] == sep && s[1] == sep) {
        lemma_first_pair(s.skip(1), sep);
        let f = first_pair(s.skip(1), sep);
        if f < s.skip(1).len() {
            assert(s.skip(1)[f] == s[f + 1]);
            assert(s.skip(1)[f + 1] == s[f + 2]);
        }
        assert forall|k: int| 0 <= k < first_pair(s, sep) && k + 1 < s.len() implies !(
            #[trigger] s[k] == sep && s[k + 1] == sep) by {
            if k > 0 {
                assert(s.skip(1)[k - 1] == s[k]);
                assert(s.skip(1)[k] == s[k + 1]);
            }
        }
    }
}

/// The first doubled separator is where a scan from the left meets it.
pub proof fn lemma_first_pair_is(s: Seq<u8>, sep: u8, j: int)
    requires
        0 <= j <= s.len(),
        forall|k: int| 0 <= k < j && k + 1 < s.len() ==> !(#[trigger] s[k] == sep && s[k + 1] == sep),
        j < s.len() ==> j + 1 < s.len() && s[j] == sep && s[j + 1] == sep,
    ensures
        first_pair(s, sep) == j,
{
    lemma_first_pair(s, sep);
    let f = first_pair(s, sep);
    if f < j {
        assert(s[f] == sep && s[f + 1] == sep);
    }
}

/// Reads a dotted quad.
fn ipv4(s: &[u8]) -> (r: Option<u32>)
    ensures
        r == ipv4_value(s@),
{
    let parts = split_bytes(s, DOT);
    if parts.len() != 4 {
        return None;
    }
    let a = octet(parts[0]);
    let b = octet(parts[1]);
    let c = octet(parts[2]);
    let d = octet(parts[3]);
    match (a, b, c, d) {
        (Some(a), Some(b), Some(c), Some(d)) => {
            let v: u32 = ((a as u32 * 256 + b as u32) * 256 + c as u32) * 256 + d as u32;
            Some(v)
        },
        _ => None,
    }
}

/// Reads a run of groups without `::`.
fn groups(s: &[u8], quad_allowed: bool) -> (r: Option<Vec<u16>>)
    ensures
        r is Some <==> run_groups(s@, quad_allowed) is Some,
        r matches Some(g) ==> g@ == run_groups(s@, quad_allowed).unwrap(),
{
    let mut out: Vec<u16> = Vec::new();
    if s.len() == 0 {
        proof {
            assert(out@ =~= Seq::<u16>::empty());
        }
        return Some(out);
    }
    let parts = split_bytes(s, COLON);
    let ghost p = split(s@, COLON);
    let ghost lead = p.drop_last();
    let last: usize = parts.len() - 1;
    let mut i: usize = 0;
    while i < last
        invariant
            i <= last,
            last == parts@.len() - 1,
            parts@.len() == p.len(),
            p == split(s@, COLON),
            lead == p.drop_last(),
            forall|k: int| 0 <= k < parts@.len() ==> (#[trigger] parts@[k])@ == p[k],
            out@.len() == i,
            forall|k: int| 0 <= k < i ==> group_text(#[trigger] lead[k]),
            forall|k: int| 0 <= k < i ==> out@[k] == hex_value(p[k]) as u16,
        decreases last - i,
    {
        match group(parts[i]) {
            Some(g) => {
                proof {
                    assert(lead[i as int] == p[i as int]);
                    lemma_hex_value_bound(p[i as int]);
                }
                out.push(g);
            },
            None => {
                proof {
                    assert(lead[i as int] == p[i as int]);
                    assert(!group_text(lead[i as int]));
                }
                return None;
            },
        }
        i += 1;
    }
    proof {
        assert(p.last() == p[last as int]);
        assert(lead.len() == last);
    }
    match group(parts[last]) {
        Some(g) => {
            out.push(g);
            proof {
                lemma_hex_value_bound(p[last as int]);
                assert(out@ =~= Seq::new(p.len(), |i: int| hex_value(p[i]) as u16));
            }
            Some(out)
        },
        None => {
            if !quad_allowed {
                return None;
            }
            match ipv4(parts[last]) {
                Some(q) => {
                    out.push((q / 65536) as u16);
                    out.push((q % 65536) as u16);
                    proof {
                        assert(out@ =~= Seq::new(lead.len(), |i: int| hex_value(lead[i]) as u16)
                            + seq![(q / 65536) as u16, (q % 65536) as u16]);
                    }
                    Some(out)
                },
                None => None,
            }
        },
    }
}

/// The number of values that `n` groups can write, for `n` up to eight.
pub open spec fn span(n: int) -> nat {
    if n <= 0 {
        1
    } else if n == 1 {
        0x1_0000
    } else if n == 2 {
        0x1_0000_0000
    } else if n == 3 {
        0x1_0000_0000_0000
    } else if n == 4 {
        0x1_0000_0000_0000_0000
    } else if n == 5 {
        0x1_0000_0000_0000_0000_0000
    } else if n == 6 {
        0x1_0000_0000_0000_0000_0000_0000
    } else if n == 7 {
        0x1_0000_0000_0000_0000_0000_0000_0000
    } else {
        0xffff_ffff_ffff_ffff_ffff_ffff_ffff_ffff + 1
    }
}

/// Up to eight groups write a number of at most 128 bits.
pub proof fn lemma_groups_bits_bound(g: Seq<u16>)
    requires
        g.len() <= 8,
    ensures
        groups_bits(g) < span(g.len() as int),
    decreases g.len(),
{
    if g.len() > 0 {
        lemma_groups_bits_bound(g.drop_last());
    }
}

/// The index of the first doubled `sep` in `s`, or the length of `s`.
fn find_pair(s: &[u8], sep: u8) -> (j: usize)
    ensures
        j == first_pair(s@, sep),
        j <= s@.len(),
        j < s@.len() ==> j + 2 <= s@.len(),
{
    if s.len() < 2 {
        proof {
            lemma_first_pair_is(s@, sep, s@.len() as int);
        }
        return s.len();
    }
    let mut j: usize = 0;
    while j + 1 < s.len() && !(s[j] == sep && s[j + 1] == sep)
        invariant
            j < s.len(),
            s@.len() >= 2,
            forall|k: int| 0 <= k < j && k + 1 < s@.len() ==> !(#[trigger] s@[k] == sep && s@[k + 1]
                == sep),
        decreases s@.len() - j,
    {
        j += 1;
    }
    if j + 1 < s.len() {
        proof {
            lemma_first_pair_is(s@, sep, j as int);
        }
        j
    } else {
        proof {
            lemma_first_pair_is(s@, sep, s@.len() as int);
        }
        s.len()
    }
}

/// Folds eight groups into 128 bits.
fn bits_of(g: &Vec<u16>) -> (v: u128)
    requires
        g@.len() == 8,
    ensures
        v == groups_bits(g@),
{
    let mut acc: u128 = 0;
    let mut i: usize = 0;
    while i < 8
        invariant
            i <= 8,
            g@.len() == 8,
            acc == groups_bits(g@.take(i as int)),
        decreases 8 - i,
    {
        proof {
            lemma_groups_bits_bound(g@.take(i as int));
            assert(g@.take(i + 1).drop_last() =~= g@.take(i as int));
            assert(g@.take(i + 1).last() == g@[i as int]);
        }
        acc = acc * 65536 + g[i] as u128;
        i += 1;
    }
    proof {
        assert(g@.take(8) =~= g@);
    }
    acc
}

/// Reads an IPv6 address.
fn ipv6(s: &[u8]) -> (r: Option<u128>)
    ensures
        r == ipv6_value(s@),
{
    let i = find_pair(s, COLON);
    if i >= s.len() {
        match groups(s, true) {
            Some(g) => if g.len() == 8 {
                Some(bits_of(&g))
            } else {
                None
            },
            None => None,
        }
    } else {
        let before = vstd::slice::slice_subrange(s, 0, i);
        let after = vstd::slice::slice_subrange(s, i + 2, s.len());
        proof {
            assert(before@ =~= s@.take(i as int));
            assert(after@ =~= s@.skip(i + 2));
        }
        match (groups(before, false), groups(after, true)) {
            (Some(h), Some(t)) => {
                if h.len() > 7 || t.len() > 7 - h.len() {
                    return None;
                }
                let gap: usize = 8 - h.len() - t.len();
                let ghost head = h@;
                let mut g = h;
                let mut k: usize = 0;
                while k < gap
                    invariant
                        k <= gap,
                        g@ == head + zero_groups(k as int),
                    decreases gap - k,
                {
                    g.push(0);
                    k += 1;
                    proof {
                        assert(g@ =~= head + zero_groups(k as int));
                    }
                }
                let mut m: usize = 0;
                while m < t.len()
                    invariant
                        m <= t@.len(),
                        g@ == head + zero_groups(gap as int) + t@.take(m as int),
                    decreases t@.len() - m,
                {
                    g.push(t[m]);
                    m += 1;
                    proof {
                        assert(g@ =~= head + zero_groups(gap as int) + t@.take(m as int));
                    }
                }
                proof {
                    assert(t@.take(m as int) =~= t@);
                }
                Some(bits_of(&g))
            },
            _ => None,
        }
    }
}

/// The endpoint that `ip:port` writes: a dotted quad, a colon and a port.
pub open spec fn socket_v4_value(s: Seq<u8>) -> Option<(u32, u16)> {
    let p = split(s, COLON);
    if p.len() == 2 && ipv4_value(p[0]) is Some && number_text(p[1], 0xffff) {
        Some((ipv4_value(p[0]).unwrap(), dec_value(p[1]) as u16))
    } else {
        None
    }
}

/// The endpoint that `[ipv6]:port` writes: address, port and zone. Inside
/// the brackets a `%` and a decimal zone number may follow the address; the
/// zone is 0 where none is written.
pub open spec fn socket_v6_value(s: Seq<u8>) -> Option<(u128, u16, u32)> {
    let body = s.skip(1);
    let j = first_of(body, CLOSE);
    let inner = body.take(j);
    let rest = body.skip(j + 1);
    let k = first_of(inner, PERCENT);
    let ip = ipv6_value(inner.take(k));
    let zoned = k < inner.len();
    let zone = inner.skip(k + 1);
    if s.len() > 0 && s[0] == OPEN && j < body.len() && rest.len() > 0 && rest[0] == COLON
        && number_text(rest.skip(1), 0xffff) && ip is Some && (zoned ==> number_text(
        zone,
        0xffff_ffff,
    )) {
        Some(
            (
                ip.unwrap(),
                dec_value(rest.skip(1)) as u16,
                if zoned {
                    dec_value(zone) as u32
                } else {
                    0u32
                },
            ),
        )
    } else {
        None
    }
}

/// The address that a bare IP text writes, dotted quad or IPv6.
pub open spec fn ip_value(s: Seq<u8>) -> Option<Result<u32, u128>> {
    match ipv4_value(s) {
        Some(q) => Some(Ok(q)),
        None => match ipv6_value(s) {
            Some(v) => Some(Err(v)),
            None => None,
        },
    }
}

/// Reads `ip:port` with a dotted quad.
pub fn socket_v4(s: &[u8]) -> (r: Option<(u32, u16)>)
    ensures
        r == socket_v4_value(s@),
{
    let parts = split_bytes(s, COLON);
    if parts.len() != 2 {
        return None;
    }
    match (ipv4(parts[0]), number(parts[1], 0xffff)) {
        (Some(ip), Some(port)) => Some((ip, port as u16)),
        _ => None,
    }
}

/// Reads `[ipv6]:port`, with an optional zone inside the brackets.
pub fn socket_v6(s: &[u8]) -> (r: Option<(u128, u16, u32)>)
    ensures
        r == socket_v6_value(s@),
{
    if s.len() == 0 || s[0] != OPEN {
        return None;
    }
    let body = vstd::slice::slice_subrange(s, 1, s.len());
    proof {
        assert(body@ =~= s@.skip(1));
    }
    let j = find(body, CLOSE);
    if j >= body.len() {
        return None;
    }
    let inner = vstd::slice::slice_subrange(body, 0, j);
    let rest = vstd::slice::slice_subrange(body, j + 1, body.len());
    proof {
        assert(inner@ =~= body@.take(j as int));
        assert(rest@ =~= body@.skip(j + 1));
    }
    if rest.len() == 0 || rest[0] != COLON {
        return None;
    }
    let digits = vstd::slice::slice_subrange(rest, 1, rest.len());
    proof {
        assert(digits@ =~= rest@.skip(1));
    }
    let port = match number(digits, 0xffff) {
        Some(p) => p as u16,
        None => {
            return None;
        },
    };
    let k = find(inner, PERCENT);
    let text = vstd::slice::slice_subrange(inner, 0, k);
    proof {
        assert(text@ =~= inner@.take(k as int));
    }
    let ip = match ipv6(text) {
        Some(v) => v,
        None => {
            return None;
        },
    };
    if k < inner.len() {
        let zone = vstd::slice::slice_subrange(inner, k + 1, inner.len());
        proof {
            assert(zone@ =~= inner@.skip(k + 1));
        }
        match number(zone, 0xffff_ffff) {
            Some(z) => Some((ip, port, z)),
            None => None,
        }
    } else {
        Some((ip, port, 0))
    }
}

/// Reads a bare IP address: `Ok` holds a dotted quad, `Err` an IPv6 address.
pub fn ip(s: &[u8]) -> (r: Option<Result<u32, u128>>)
    ensures
        r == ip_value(s@),
{
    match ipv4(s) {
        Some(q) => Some(Ok(q)),
        None => match ipv6(s) {
            Some(v) => Some(Err(v)),
            None => None,
        },
    }
}

} // verus!
