//! IP addresses: how they are written and which must not be reached.

use vstd::prelude::*;
use vstd::string::*;
use crate::text::chars::{from_chars, push_all, push_text};
use crate::text::number::{decimal, decimal_chars};
use crate::text::split::joined;

verus! {

/// An IP address.
#[derive(Debug, Clone, Copy, PartialEq, Eq, Structural)]
pub enum IpAddr {
    V4(u8, u8, u8, u8),
    V6(u16, u16, u16, u16, u16, u16, u16, u16),
}

/// The IPv4 address in two 16-bit groups.
pub open spec fn v4_of_groups(hi: u16, lo: u16) -> IpAddr {
    IpAddr::V4((hi / 256) as u8, (hi % 256) as u8, (lo / 256) as u8, (lo % 256) as u8)
}

/// The IPv4 address that an IPv6 address stands for: mapped
/// (`::ffff:0:0/96`), translated (`64:ff9b::/96`) or tunnelled (`2002::/16`).
pub open spec fn embedded(ip: IpAddr) -> Option<IpAddr> {
    match ip {
        IpAddr::V4(..) => None,
        IpAddr::V6(a, b, c, d, e, f, g, h) => if a == 0 && b == 0 && c == 0 && d == 0 && e == 0
            && f == 0xffff {
            Some(v4_of_groups(g, h))
        } else if a == 0x64 && b == 0xff9b && c == 0 && d == 0 && e == 0 && f == 0 {
            Some(v4_of_groups(g, h))
        } else if a == 0x2002 {
            Some(v4_of_groups(b, c))
        } else {
            None
        },
    }
}

/// An IPv4 address that must not be reached: this host, private and local
/// networks, and ranges that are no one's.
pub open spec fn blocked_v4(a: u8, b: u8, c: u8, d: u8) -> bool {
    // This host.
    ||| a == 127
    // Private networks.
    ||| a == 10
    ||| a == 172 && 16 <= b <= 31
    ||| a == 192 && b == 168
    // The local link.
    ||| a == 169 && b == 254
    // No address, and all of them.
    ||| a == 0 && b == 0 && c == 0 && d == 0
    ||| a == 255 && b == 255 && c == 255 && d == 255
    // Documentation.
    ||| a == 192 && b == 0 && c == 2
    ||| a == 198 && b == 51 && c == 100
    ||| a == 203 && b == 0 && c == 113
    // Networks of providers.
    ||| a == 100 && 64 <= b <= 127
    // Benchmarks.
    ||| a == 198 && (b == 18 || b == 19)
}

/// Unique local addresses, `fc00::/7`.
pub open spec fn unique_local(first: u16) -> bool {
    0xfc00 <= first <= 0xfdff
}

/// Link-local addresses, `fe80::/10`.
pub open spec fn link_local(first: u16) -> bool {
    0xfe80 <= first <= 0xfebf
}

/// An address that must not be reached. An IPv6 address that stands for an
/// IPv4 one goes by that one.
pub open spec fn blocked(ip: IpAddr) -> bool {
    match embedded(ip) {
        Some(IpAddr::V4(a, b, c, d)) => blocked_v4(a, b, c, d),
        _ => match ip {
            IpAddr::V4(a, b, c, d) => blocked_v4(a, b, c, d),
            IpAddr::V6(a, b, c, d, e, f, g, h) => {
                let zeros = a == 0 && b == 0 && c == 0 && d == 0 && e == 0 && f == 0 && g == 0;
                ||| zeros && (h == 0 || h == 1)
                ||| unique_local(a)
                ||| link_local(a)
            },
        },
    }
}

/// Unpacks an IPv4 address.
fn groups_to_v4(hi: u16, lo: u16) -> (r: IpAddr)
    ensures
        r == v4_of_groups(hi, lo),
{
    IpAddr::V4((hi / 256) as u8, (hi % 256) as u8, (lo / 256) as u8, (lo % 256) as u8)
}

/// The IPv4 address that an IPv6 address stands for.
pub fn embedded_ipv4(ip: &IpAddr) -> (r: Option<IpAddr>)
    ensures
        r == embedded(*ip),
{
    match *ip {
        IpAddr::V4(..) => None,
        IpAddr::V6(a, b, c, d, e, f, g, h) => {
            let mapped = a == 0 && b == 0 && c == 0 && d == 0 && e == 0 && f == 0xffff;
            let translated = a == 0x64 && b == 0xff9b && c == 0 && d == 0 && e == 0 && f == 0;
            if mapped || translated {
                Some(groups_to_v4(g, h))
            } else if a == 0x2002 {
                Some(groups_to_v4(b, c))
            } else {
                None
            }
        },
    }
}

/// Whether an IPv4 address must not be reached.
fn is_blocked_v4(a: u8, b: u8, c: u8, d: u8) -> (r: bool)
    ensures
        r == blocked_v4(a, b, c, d),
{
    a == 127 || a == 10 || (a == 172 && 16 <= b && b <= 31) || (a == 192 && b == 168) || (a == 169
        && b == 254) || (a == 0 && b == 0 && c == 0 && d == 0) || (a == 255 && b == 255 && c == 255
        && d == 255) || (a == 192 && b == 0 && c == 2) || (a == 198 && b == 51 && c == 100) || (a
        == 203 && b == 0 && c == 113) || (a == 100 && 64 <= b && b <= 127) || (a == 198 && (b == 18
        || b == 19))
}

/// Whether an address is unique local.
pub fn is_ipv6_ula(ip: &IpAddr) -> (r: bool)
    ensures
        r == (ip matches IpAddr::V6(a, ..) && unique_local(*a)),
{
    match *ip {
        IpAddr::V4(..) => false,
        IpAddr::V6(a, ..) => 0xfc00 <= a && a <= 0xfdff,
    }
}

/// Whether an address is link-local.
pub fn is_ipv6_link_local(ip: &IpAddr) -> (r: bool)
    ensures
        r == (ip matches IpAddr::V6(a, ..) && link_local(*a)),
{
    match *ip {
        IpAddr::V4(..) => false,
        IpAddr::V6(a, ..) => 0xfe80 <= a && a <= 0xfebf,
    }
}

/// Whether an address must not be reached.
pub fn is_blocked_ip(ip: &IpAddr) -> (r: bool)
    ensures
        r == blocked(*ip),
{
    match embedded_ipv4(ip) {
        Some(IpAddr::V4(a, b, c, d)) => is_blocked_v4(a, b, c, d),
        _ => match *ip {
            IpAddr::V4(a, b, c, d) => is_blocked_v4(a, b, c, d),
            IpAddr::V6(a, b, c, d, e, f, g, h) => {
                let zeros = a == 0 && b == 0 && c == 0 && d == 0 && e == 0 && f == 0 && g == 0;
                (zeros && (h == 0 || h == 1)) || is_ipv6_ula(ip) || is_ipv6_link_local(ip)
            },
        },
    }
}

/// No disguise changes what is let through: an IPv4 address is blocked in
/// each of the three forms exactly where it is blocked by itself.
pub proof fn disguise_changes_nothing(a: u8, b: u8, c: u8, d: u8)
    ensures
        blocked(IpAddr::V6(0, 0, 0, 0, 0, 0xffff, (a * 256 + b) as u16, (c * 256 + d) as u16))
            == blocked_v4(a, b, c, d),
        blocked(IpAddr::V6(0x64, 0xff9b, 0, 0, 0, 0, (a * 256 + b) as u16, (c * 256 + d) as u16))
            == blocked_v4(a, b, c, d),
        forall|e: u16, f: u16, g: u16, h: u16, i: u16| #[trigger]
            blocked(IpAddr::V6(0x2002, (a * 256 + b) as u16, (c * 256 + d) as u16, e, f, g, h, i))
                == blocked_v4(a, b, c, d),
{
    let hi = (a * 256 + b) as u16;
    let lo = (c * 256 + d) as u16;
    assert(hi / 256 == a && hi % 256 == b);
    assert(lo / 256 == c && lo % 256 == d);
    assert(v4_of_groups(hi, lo) == IpAddr::V4(a, b, c, d));
}

/// The hexadecimal digit.
pub open spec fn hex_digit(d: nat) -> char {
    if d < 10 {
        ((48 + d) as u8) as char
    } else {
        ((87 + d) as u8) as char
    }
}

/// The hexadecimal numeral of `n` in lower case, without leading zeros.
pub open spec fn hex(n: nat) -> Seq<char>
    decreases n,
{
    if n < 16 {
        seq![hex_digit(n)]
    } else {
        hex(n / 16).push(hex_digit(n % 16))
    }
}

/// The hexadecimal numeral of `n`.
fn hex_chars(n: u16) -> (r: Vec<char>)
    ensures
        r@ == hex(n as nat),
    decreases n,
{
    let d: u8 = (n % 16) as u8;
    let c: char = if d < 10 {
        (48 + d) as char
    } else {
        (87 + d) as char
    };
    let mut v: Vec<char> = if n < 16 {
        Vec::new()
    } else {
        hex_chars(n / 16)
    };
    v.push(c);
    assert(v@ == hex(n as nat));
    v
}

/// An IPv4 address: four numbers with dots between them.
pub open spec fn shown_v4(a: u8, b: u8, c: u8, d: u8) -> Seq<char> {
    decimal(a as nat).push('.') + decimal(b as nat).push('.') + decimal(c as nat).push('.')
        + decimal(d as nat)
}

/// The first longest run of zeros among the first `n` groups, as its start
/// and length, and the run that ends there.
pub open spec fn zero_runs(groups: Seq<u16>, n: int) -> ((int, int), (int, int))
    decreases n,
{
    if n <= 0 {
        ((0, 0), (0, 0))
    } else {
        let (best, last) = zero_runs(groups, n - 1);
        if groups[n - 1] != 0 {
            (best, (0, 0))
        } else {
            let now = if last.1 == 0 {
                (n - 1, 1)
            } else {
                (last.0, last.1 + 1)
            };
            (
                if now.1 > best.1 {
                    now
                } else {
                    best
                },
                now,
            )
        }
    }
}

/// The groups from `a` to `b` in hexadecimal with colons between them.
pub open spec fn shown_groups(groups: Seq<u16>, a: int, b: int) -> Seq<char>
    decreases b - a,
{
    if b <= a {
        Seq::empty()
    } else if b == a + 1 {
        hex(groups[a] as nat)
    } else {
        shown_groups(groups, a, b - 1).push(':') + hex(groups[b - 1] as nat)
    }
}

/// How an address is written. An IPv6 address has its longest run of zeros
/// left out; a mapped IPv4 address is written as such.
pub open spec fn shown_ip(ip: IpAddr) -> Seq<char> {
    match ip {
        IpAddr::V4(a, b, c, d) => shown_v4(a, b, c, d),
        IpAddr::V6(a, b, c, d, e, f, g, h) => if a == 0 && b == 0 && c == 0 && d == 0 && e == 0 && f
            == 0xffff {
            "::ffff:"@ + shown_v4(
                (g / 256) as u8,
                (g % 256) as u8,
                (h / 256) as u8,
                (h % 256) as u8,
            )
        } else {
            let groups = seq![a, b, c, d, e, f, g, h];
            let run = zero_runs(groups, 8).0;
            if run.1 > 1 {
                shown_groups(groups, 0, run.0) + "::"@ + shown_groups(groups, run.0 + run.1, 8)
            } else {
                shown_groups(groups, 0, 8)
            }
        },
    }
}

/// Writes an IPv4 address.
fn push_v4(out: &mut Vec<char>, a: u8, b: u8, c: u8, d: u8)
    ensures
        final(out)@ == old(out)@ + shown_v4(a, b, c, d),
{
    let ghost start = out@;
    let x = decimal_chars(a as u128);
    push_all(out, x.as_slice());
    out.push('.');
    let x = decimal_chars(b as u128);
    push_all(out, x.as_slice());
    out.push('.');
    let x = decimal_chars(c as u128);
    push_all(out, x.as_slice());
    out.push('.');
    let x = decimal_chars(d as u128);
    push_all(out, x.as_slice());
    assert(out@ == start + shown_v4(a, b, c, d));
}

/// Writes groups with colons between them.
fn push_groups(out: &mut Vec<char>, groups: &Vec<u16>, a: usize, b: usize)
    requires
        a <= b <= groups@.len(),
    ensures
        final(out)@ == old(out)@ + shown_groups(groups@, a as int, b as int),
{
    let ghost start = out@;
    let mut i: usize = a;
    assert(out@ == start + shown_groups(groups@, a as int, a as int));
    while i < b
        invariant
            a <= i <= b <= groups@.len(),
            start == old(out)@,
            out@ == start + shown_groups(groups@, a as int, i as int),
        decreases b - i,
    {
        let ghost before = out@;
        if i > a {
            out.push(':');
        }
        let x = hex_chars(groups[i]);
        push_all(out, x.as_slice());
        proof {
            let so_far = shown_groups(groups@, a as int, i as int);
            if i > a {
                assert(shown_groups(groups@, a as int, i + 1) == so_far.push(':') + x@);
                assert(out@ == start + (so_far.push(':') + x@));
            } else {
                assert(so_far == Seq::<char>::empty());
                assert(out@ == start + x@);
            }
        }
        i = i + 1;
    }
}

/// Writes an address.
pub fn show_ip(ip: &IpAddr) -> (r: String)
    ensures
        r@ == shown_ip(*ip),
{
    let mut out: Vec<char> = Vec::new();
    match *ip {
        IpAddr::V4(a, b, c, d) => {
            push_v4(&mut out, a, b, c, d);
        },
        IpAddr::V6(a, b, c, d, e, f, g, h) => {
            if a == 0 && b == 0 && c == 0 && d == 0 && e == 0 && f == 0xffff {
                push_text(&mut out, "::ffff:");
                push_v4(
                    &mut out,
                    (g / 256) as u8,
                    (g % 256) as u8,
                    (h / 256) as u8,
                    (h % 256) as u8,
                );
            } else {
                let mut groups: Vec<u16> = Vec::new();
                groups.push(a);
                groups.push(b);
                groups.push(c);
                groups.push(d);
                groups.push(e);
                groups.push(f);
                groups.push(g);
                groups.push(h);
                assert(groups@ == seq![a, b, c, d, e, f, g, h]);
                let mut best: (usize, usize) = (0, 0);
                let mut last: (usize, usize) = (0, 0);
                let mut i: usize = 0;
                while i < 8
                    invariant
                        i <= 8,
                        groups@.len() == 8,
                        zero_runs(groups@, i as int) == (
                            (best.0 as int, best.1 as int),
                            (last.0 as int, last.1 as int),
                        ),
                        best.0 + best.1 <= i,
                        last.1 > 0 ==> last.0 + last.1 == i,
                    decreases 8 - i,
                {
                    if groups[i] != 0 {
                        last = (0, 0);
                    } else {
                        last = if last.1 == 0 {
                            (i, 1)
                        } else {
                            (last.0, last.1 + 1)
                        };
                        if last.1 > best.1 {
                            best = last;
                        }
                    }
                    i = i + 1;
                }
                if best.1 > 1 {
                    push_groups(&mut out, &groups, 0, best.0);
                    push_text(&mut out, "::");
                    push_groups(&mut out, &groups, best.0 + best.1, 8);
                } else {
                    push_groups(&mut out, &groups, 0, 8);
                }
            }
        },
    }
    assert(out@ == shown_ip(*ip));
    from_chars(out.as_slice())
}

/// The number that the bytes of an IPv4 address stand for.
pub open spec fn v4_number(a: u8, b: u8, c: u8, d: u8) -> int {
    a * 0x100_0000 + b * 0x1_0000 + c * 0x100 + d
}

/// The IPv4 addresses that must not be reached are these ranges and no others:
/// this host, the private networks, the local link, no address and all of
/// them, what is set aside for documentation, the networks of providers and
/// benchmarks.
pub proof fn blocked_ranges_of_ipv4(a: u8, b: u8, c: u8, d: u8, r: bool)
    requires
        call_ensures(is_blocked_ip, (&IpAddr::V4(a, b, c, d),), r),
    ensures
        ({
            let n = v4_number(a, b, c, d);
            r == (v4_number(127, 0, 0, 0) <= n <= v4_number(127, 255, 255, 255) || v4_number(
                10,
                0,
                0,
                0,
            ) <= n <= v4_number(10, 255, 255, 255) || v4_number(172, 16, 0, 0) <= n <= v4_number(
                172,
                31,
                255,
                255,
            ) || v4_number(192, 168, 0, 0) <= n <= v4_number(192, 168, 255, 255) || v4_number(
                169,
                254,
                0,
                0,
            ) <= n <= v4_number(169, 254, 255, 255) || n == 0 || n == v4_number(
                255,
                255,
                255,
                255,
            ) || v4_number(192, 0, 2, 0) <= n <= v4_number(192, 0, 2, 255) || v4_number(
                198,
                51,
                100,
                0,
            ) <= n <= v4_number(198, 51, 100, 255) || v4_number(203, 0, 113, 0) <= n <= v4_number(
                203,
                0,
                113,
                255,
            ) || v4_number(100, 64, 0, 0) <= n <= v4_number(100, 127, 255, 255) || v4_number(
                198,
                18,
                0,
                0,
            ) <= n <= v4_number(198, 19, 255, 255))
        }),
{
}

/// The IPv6 addresses that must not be reached, apart from those that stand
/// for an IPv4 address, are no address, this host, the local link and unique
/// local addresses.
pub proof fn blocked_ranges_of_ipv6(
    a: u16,
    b: u16,
    c: u16,
    d: u16,
    e: u16,
    f: u16,
    g: u16,
    h: u16,
    inner: Option<IpAddr>,
    r: bool,
)
    requires
        call_ensures(is_blocked_ip, (&IpAddr::V6(a, b, c, d, e, f, g, h),), r),
        call_ensures(embedded_ipv4, (&IpAddr::V6(a, b, c, d, e, f, g, h),), inner),
    ensures
        inner is None ==> r == ((a == 0 && b == 0 && c == 0 && d == 0 && e == 0 && f == 0 && g == 0
            && h <= 1) || 0xfc00 <= a < 0xfe00 || 0xfe80 <= a < 0xfec0),
        inner is Some == ((a == 0 && b == 0 && c == 0 && d == 0 && e == 0 && f == 0xffff) || (a
            == 0x64 && b == 0xff9b && c == 0 && d == 0 && e == 0 && f == 0) || a == 0x2002),
{
}

/// An IPv4 address is written as its four numbers with dots between them.
pub proof fn ipv4_is_written_with_dots(a: u8, b: u8, c: u8, d: u8, r: String)
    requires
        call_ensures(show_ip, (&IpAddr::V4(a, b, c, d),), r),
    ensures
        r@ == decimal(a as nat) + "."@ + decimal(b as nat) + "."@ + decimal(c as nat) + "."@
            + decimal(d as nat),
{
    reveal_strlit(".");
    assert(r@ == decimal(a as nat) + "."@ + decimal(b as nat) + "."@ + decimal(c as nat) + "."@
        + decimal(d as nat));
}

/// All groups from `a` up to `b` are zero.
pub open spec fn all_zero(groups: Seq<u16>, a: int, b: int) -> bool {
    forall|k: int| a <= k < b ==> #[trigger] groups[k] == 0
}

proof fn lemma_zero_runs(groups: Seq<u16>, n: int)
    requires
        0 <= n <= groups.len(),
    ensures
        ({
            let (best, last) = zero_runs(groups, n);
            &&& 0 <= best.0 && 0 <= best.1 && best.0 + best.1 <= n
            &&& all_zero(groups, best.0, best.0 + best.1)
            &&& 0 <= last.1
            &&& last.1 > 0 ==> 0 <= last.0 && last.0 + last.1 == n && all_zero(
                groups,
                last.0,
                n,
            ) && (last.0 == 0 || groups[last.0 - 1] != 0)
            &&& last.1 == 0 ==> n == 0 || groups[n - 1] != 0
            &&& forall|a: int, b: int|
                0 <= a < b <= n && #[trigger] all_zero(groups, a, b) ==> b - a <= best.1 && (b - a
                    == best.1 ==> best.0 <= a)
        }),
    decreases n,
{
    if n > 0 {
        lemma_zero_runs(groups, n - 1);
        let (best0, last0) = zero_runs(groups, n - 1);
        let (best, last) = zero_runs(groups, n);
        if groups[n - 1] == 0 {
            assert forall|k: int| last.0 <= k < n implies #[trigger] groups[k] == 0 by {}
        }
        assert forall|a: int, b: int|
            0 <= a < b <= n && #[trigger] all_zero(groups, a, b) implies b - a <= best.1 && (b - a
            == best.1 ==> best.0 <= a) by {
            if b <= n - 1 {
                assert(b - a <= best0.1);
            } else {
                assert(groups[n - 1] == 0);
                if a < last.0 {
                    assert(groups[last.0 - 1] == 0);
                }
                assert(last.0 <= a);
                if best == best0 && b - a == best.1 {
                    assert(last.1 == best0.1);
                    assert(a == last.0);
                    if best0.0 > a {
                        assert(best0.0 + best0.1 <= n - 1);
                    }
                }
            }
        }
    }
}

/// An IPv6 address that is not a mapped one leaves out its longest run of at
/// least two zero groups, the first where there are several; the groups before
/// and behind it are written in order.
pub proof fn longest_run_of_zeros_is_left_out(
    a: u16,
    b: u16,
    c: u16,
    d: u16,
    e: u16,
    f: u16,
    g: u16,
    h: u16,
    groups: Seq<u16>,
    from: int,
    to: int,
    r: String,
)
    requires
        call_ensures(show_ip, (&IpAddr::V6(a, b, c, d, e, f, g, h),), r),
        !(a == 0 && b == 0 && c == 0 && d == 0 && e == 0 && f == 0xffff),
        groups == seq![a, b, c, d, e, f, g, h],
        0 <= from,
        from + 2 <= to <= 8,
        all_zero(groups, from, to),
        forall|x: int, y: int|
            0 <= x < y <= 8 && #[trigger] all_zero(groups, x, y) ==> y - x
                <= to - from && (y - x == to - from ==> from <= x),
    ensures
        r@ == shown_groups(groups, 0, from) + "::"@ + shown_groups(groups, to, 8),
{
    lemma_zero_runs(groups, 8);
    let best = zero_runs(groups, 8).0;
    assert(all_zero(groups, best.0, best.0 + best.1));
    assert(to - from <= best.1);
    assert(best.1 == to - from);
    assert(best.0 == from);
}

/// Groups are written one after the other with colons between them, each in
/// hexadecimal.
pub proof fn groups_are_written_with_colons(groups: Seq<u16>, from: int, to: int)
    requires
        0 <= from < to <= groups.len(),
    ensures
        shown_groups(groups, from, to) == joined(
            Seq::new((to - from) as nat, |i: int| hex(groups[from + i] as nat)),
            seq![':'],
        ),
    decreases to - from,
{
    let all = Seq::new((to - from) as nat, |i: int| hex(groups[from + i] as nat));
    if to == from + 1 {
        assert(all[0] == hex(groups[from] as nat));
    } else {
        groups_are_written_with_colons(groups, from, to - 1);
        let init = Seq::new((to - 1 - from) as nat, |i: int| hex(groups[from + i] as nat));
        assert(all.drop_last() == init);
        assert(shown_groups(groups, from, to) == joined(init, seq![':']) + seq![':'] + all.last());
    }
}

} // verus!
