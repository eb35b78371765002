//! Addresses as text.
//!
//! An IPv4 endpoint is written `a.b.c.d:port`. An IPv6 endpoint is written
//! `[groups]:port`, or `[groups%zone]:port` in a zone other than 0, with the
//! groups in lower-case hexadecimal without leading zeros, the longest run of
//! two or more zero groups (the first, if several are longest) written as
//! `::`, and an address that maps an IPv4 address written with a dotted quad.
use crate::net::syntax::span;
use vstd::prelude::*;
use vstd::string::StringExecFns;

verus! {

/// The character of a digit below sixteen.
pub open spec fn digit_char(d: nat) -> char {
    if d == 0 {
        '0'
    } else if d == 1 {
        '1'
    } else if d == 2 {
        '2'
    } else if d == 3 {
        '3'
    } else if d == 4 {
        '4'
    } else if d == 5 {
        '5'
    } else if d == 6 {
        '6'
    } else if d == 7 {
        '7'
    } else if d == 8 {
        '8'
    } else if d == 9 {
        '9'
    } else if d == 10 {
        'a'
    } else if d == 11 {
        'b'
    } else if d == 12 {
        'c'
    } else if d == 13 {
        'd'
    } else if d == 14 {
        'e'
    } else {
        'f'
    }
}

/// A number in decimal, without leading zeros.
pub open spec fn dec_chars(n: nat) -> Seq<char>
    decreases n,
{
    if n < 10 {
        seq![digit_char(n)]
    } else {
        dec_chars(n / 10).push(digit_char(n % 10))
    }
}

/// A number in lower-case hexadecimal, without leading zeros.
pub open spec fn hex_chars(n: nat) -> Seq<char>
    decreases n,
{
    if n < 16 {
        seq![digit_char(n)]
    } else {
        hex_chars(n / 16).push(digit_char(n % 16))
    }
}

/// An IPv4 address as a dotted quad.
pub open spec fn quad_chars(ip: u32) -> Seq<char> {
    dec_chars((ip / 0x100_0000) as nat) + seq!['.'] + dec_chars((ip / 0x1_0000 % 256) as nat)
        + seq!['.'] + dec_chars((ip / 0x100 % 256) as nat) + seq!['.'] + dec_chars(
        (ip % 256) as nat,
    )
}

/// The `i`-th of the eight groups of an IPv6 address, from the left.
pub open spec fn group_at(ip: u128, i: int) -> nat {
    (ip as nat / span(7 - i)) % 0x1_0000
}

/// The groups from `from` up to but without `to`, with colons between them.
pub open spec fn run_chars(ip: u128, from: int, to: int) -> Seq<char>
    decreases to - from,
{
    if from >= to {
        Seq::empty()
    } else if from + 1 == to {
        hex_chars(group_at(ip, from))
    } else {
        hex_chars(group_at(ip, from)) + seq![':'] + run_chars(ip, from + 1, to)
    }
}

/// The number of zero groups in a row from group `i` on.
pub open spec fn zeros_from(ip: u128, i: int) -> int
    decreases 8 - i,
{
    if i < 0 || i >= 8 || group_at(ip, i) != 0 {
        0
    } else {
        1 + zeros_from(ip, i + 1)
    }
}

/// Start and length of the longest run of zero groups that starts at group
/// `from` or later; of several longest runs, the first. The length is 0
/// where no group is zero.
pub open spec fn longest_zeros(ip: u128, from: int) -> (int, int)
    decreases 8 - from,
{
    if from < 0 || from >= 8 {
        (8, 0)
    } else {
        let rest = longest_zeros(ip, from + 1);
        let here = zeros_from(ip, from);
        if here > 0 && here >= rest.1 {
            (from, here)
        } else {
            rest
        }
    }
}

/// Whether an IPv6 address maps an IPv4 address: `::ffff:a.b.c.d`.
pub open spec fn maps_ipv4(ip: u128) -> bool {
    ip / 0x1_0000_0000 == 0xffff
}

/// An IPv6 address as text.
pub open spec fn ipv6_chars(ip: u128) -> Seq<char> {
    let z = longest_zeros(ip, 0);
    if maps_ipv4(ip) {
        seq![':', ':', 'f', 'f', 'f', 'f', ':'] + quad_chars((ip % 0x1_0000_0000) as u32)
    } else if z.1 > 1 {
        run_chars(ip, 0, z.0) + seq![':', ':'] + run_chars(ip, z.0 + z.1, 8)
    } else {
        run_chars(ip, 0, 8)
    }
}

/// An IPv4 endpoint as text.
pub open spec fn socket_v4_chars(ip: u32, port: u16) -> Seq<char> {
    quad_chars(ip) + seq![':'] + dec_chars(port as nat)
}

/// An IPv6 endpoint as text.
pub open spec fn socket_v6_chars(ip: u128, port: u16, scope_id: u32) -> Seq<char> {
    if scope_id == 0 {
        seq!['['] + ipv6_chars(ip) + seq![']', ':'] + dec_chars(port as nat)
    } else {
        seq!['['] + ipv6_chars(ip) + seq!['%'] + dec_chars(scope_id as nat) + seq![']', ':']
            + dec_chars(port as nat)
    }
}

/// Appends a text.
fn push_str(out: &mut String, t: &str)
    ensures
        final(out)@ == old(out)@ + t@,
{
    out.append(t);
}

/// Appends the character of a digit below sixteen.
fn push_digit(out: &mut String, d: u8)
    requires
        d < 16,
    ensures
        final(out)@ == old(out)@.push(digit_char(d as nat)),
{
    proof {
        reveal_strlit("0");
        reveal_strlit("1");
        reveal_strlit("2");
        reveal_strlit("3");
        reveal_strlit("4");
        reveal_strlit("5");
        reveal_strlit("6");
        reveal_strlit("7");
        reveal_strlit("8");
        reveal_strlit("9");
        reveal_strlit("a");
        reveal_strlit("b");
        reveal_strlit("c");
        reveal_strlit("d");
        reveal_strlit("e");
        reveal_strlit("f");
    }
    let t: &str = if d == 0 {
        "0"
    } else if d == 1 {
        "1"
    } else if d == 2 {
        "2"
    } else if d == 3 {
        "3"
    } else if d == 4 {
        "4"
    } else if d == 5 {
        "5"
    } else if d == 6 {
        "6"
    } else if d == 7 {
        "7"
    } else if d == 8 {
        "8"
    } else if d == 9 {
        "9"
    } else if d == 10 {
        "a"
    } else if d == 11 {
        "b"
    } else if d == 12 {
        "c"
    } else if d == 13 {
        "d"
    } else if d == 14 {
        "e"
    } else {
        "f"
    };
    assert(t@ =~= seq![digit_char(d as nat)]);
    out.append(t);
    assert(out@ =~= old(out)@.push(digit_char(d as nat)));
}

/// Appends a number in decimal.
fn push_dec(out: &mut String, n: u32)
    ensures
        final(out)@ == old(out)@ + dec_chars(n as nat),
    decreases n,
{
    if n >= 10 {
        push_dec(out, n / 10);
    }
    push_digit(out, (n % 10) as u8);
    assert(out@ =~= old(out)@ + dec_chars(n as nat));
}

/// Appends a number in hexadecimal.
fn push_hex(out: &mut String, n: u16)
    ensures
        final(out)@ == old(out)@ + hex_chars(n as nat),
    decreases n,
{
    if n >= 16 {
        push_hex(out, n / 16);
    }
    push_digit(out, (n % 16) as u8);
    assert(out@ =~= old(out)@ + hex_chars(n as nat));
}

/// Appends a dotted quad.
fn push_quad(out: &mut String, ip: u32)
    ensures
        final(out)@ == old(out)@ + quad_chars(ip),
{
    proof {
        reveal_strlit(".");
    }
    push_dec(out, ip / 0x100_0000);
    push_str(out, ".");
    push_dec(out, ip / 0x1_0000 % 256);
    push_str(out, ".");
    push_dec(out, ip / 0x100 % 256);
    push_str(out, ".");
    push_dec(out, ip % 256);
    assert(out@ =~= old(out)@ + quad_chars(ip));
}

/// The `i`-th group of an IPv6 address, from the left.
fn group_of(ip: u128, i: usize) -> (g: u16)
    requires
        i < 8,
    ensures
        g == group_at(ip, i as int),
{
    let div: u128 = if i == 0 {
        0x1_0000_0000_0000_0000_0000_0000_0000
    } else if i == 1 {
        0x1_0000_0000_0000_0000_0000_0000
    } else if i == 2 {
        0x1_0000_0000_0000_0000_0000
    } else if i == 3 {
        0x1_0000_0000_0000_0000
    } else if i == 4 {
        0x1_0000_0000_0000
    } else if i == 5 {
        0x1_0000_0000
    } else if i == 6 {
        0x1_0000
    } else {
        1
    };
    ((ip / div) % 0x1_0000) as u16
}

/// Appends the groups from `from` up to but without `to`.
fn push_run(out: &mut String, ip: u128, from: usize, to: usize)
    requires
        from <= to <= 8,
    ensures
        final(out)@ == old(out)@ + run_chars(ip, from as int, to as int),
{
    let mut i: usize = from;
    while i < to
        invariant
            from <= i <= to <= 8,
            out@ + run_chars(ip, i as int, to as int) == old(out)@ + run_chars(
                ip,
                from as int,
                to as int,
            ),
        decreases to - i,
    {
        let ghost before = out@;
        push_hex(out, group_of(ip, i));
        if i + 1 < to {
            push_str(out, ":");
        }
        proof {
            reveal_strlit(":");
            assert(":"@ =~= seq![':']);
            assert(out@ + run_chars(ip, i + 1, to as int) =~= before + run_chars(
                ip,
                i as int,
                to as int,
            ));
        }
        i += 1;
    }
    assert(out@ =~= out@ + run_chars(ip, i as int, to as int));
}

/// Finds the longest run of zero groups.
fn find_zeros(ip: u128) -> (z: (usize, usize))
    ensures
        z.0 == longest_zeros(ip, 0).0,
        z.1 == longest_zeros(ip, 0).1,
        z.0 + z.1 <= 8,
{
    let mut best: (usize, usize) = (8, 0);
    let mut here: usize = 0;
    let mut i: usize = 8;
    while i > 0
        invariant
            i <= 8,
            best.0 == longest_zeros(ip, i as int).0,
            best.1 == longest_zeros(ip, i as int).1,
            here == zeros_from(ip, i as int),
            here + i <= 8,
            best.0 + best.1 <= 8,
        decreases i,
    {
        i -= 1;
        if group_of(ip, i) == 0 {
            here += 1;
        } else {
            here = 0;
        }
        if here > 0 && here >= best.1 {
            best = (i, here);
        }
    }
    best
}

/// Appends an IPv6 address.
fn push_ipv6(out: &mut String, ip: u128)
    ensures
        final(out)@ == old(out)@ + ipv6_chars(ip),
{
    proof {
        reveal_strlit("::ffff:");
        reveal_strlit("::");
    }
    if ip / 0x1_0000_0000 == 0xffff {
        push_str(out, "::ffff:");
        push_quad(out, (ip % 0x1_0000_0000) as u32);
        assert("::ffff:"@ =~= seq![':', ':', 'f', 'f', 'f', 'f', ':']);
        assert(out@ =~= old(out)@ + ipv6_chars(ip));
    } else {
        let z = find_zeros(ip);
        if z.1 > 1 {
            push_run(out, ip, 0, z.0);
            push_str(out, "::");
            push_run(out, ip, z.0 + z.1, 8);
            assert("::"@ =~= seq![':', ':']);
            assert(out@ =~= old(out)@ + ipv6_chars(ip));
        } else {
            push_run(out, ip, 0, 8);
        }
    }
}

/// An IPv4 endpoint as text.
pub fn socket_v4_text(ip: u32, port: u16) -> (s: String)
    ensures
        s@ == socket_v4_chars(ip, port),
{
    proof {
        reveal_strlit(":");
    }
    let mut out = String::new();
    push_quad(&mut out, ip);
    push_str(&mut out, ":");
    push_dec(&mut out, port as u32);
    assert(out@ =~= socket_v4_chars(ip, port));
    out
}

/// An IPv6 endpoint as text.
pub fn socket_v6_text(ip: u128, port: u16, scope_id: u32) -> (s: String)
    ensures
        s@ == socket_v6_chars(ip, port, scope_id),
{
    proof {
        reveal_strlit("[");
        reveal_strlit("%");
        reveal_strlit("]:");
    }
    let mut out = String::new();
    push_str(&mut out, "[");
    push_ipv6(&mut out, ip);
    if scope_id != 0 {
        push_str(&mut out, "%");
        push_dec(&mut out, scope_id);
    }
    push_str(&mut out, "]:");
    push_dec(&mut out, port as u32);
    assert("]:"@ =~= seq![']', ':']);
    assert(out@ =~= socket_v6_chars(ip, port, scope_id));
    out
}

} // verus!
