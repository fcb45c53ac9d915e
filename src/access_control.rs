//! Access control: allow and deny lists of networks (CIDR), and a per-client
//! request window of one minute.

use vstd::prelude::*;
use vstd::arithmetic::power2::{pow2, lemma2_to64, lemma_pow2_adds};
use vstd::bits::{lemma_u32_shr_is_div, lemma_u128_shr_is_div};
use crate::text::{split_on, split_text, decimal_at_most, parse_decimal};

verus! {

/// An IP address as a number: 32 bits for IPv4, 128 bits for IPv6.
#[derive(PartialEq, Eq, Structural, Clone, Copy, Debug)]
pub enum IpAddress {
    V4(u32),
    V6(u128),
}

#[derive(PartialEq, Eq, Structural, Clone, Copy, Debug)]
pub struct Ipv4Network {
    pub network: u32,
    pub prefix: u8,
}

#[derive(PartialEq, Eq, Structural, Clone, Copy, Debug)]
pub struct Ipv6Network {
    pub network: u128,
    pub prefix: u8,
}

#[derive(PartialEq, Eq, Structural, Clone, Copy, Debug)]
pub enum IpNetwork {
    V4(Ipv4Network),
    V6(Ipv6Network),
}

/// Why a network text was refused.
#[derive(PartialEq, Eq, Structural, Clone, Copy, Debug)]
pub enum NetworkParseError {
    /// More than one `/`.
    InvalidFormat,
    /// The prefix length is not a number up to 255, or too long for the address.
    InvalidPrefix,
    /// The address is neither IPv4 nor IPv6.
    InvalidAddress,
}

/// Whether a decimal text is an IPv4 octet: at most 255, no leading zero.
pub open spec fn octet_value(t: Seq<char>) -> Option<nat> {
    if decimal_at_most(t, 255) is Some && (t.len() == 1 || t[0] != '0') {
        decimal_at_most(t, 255)
    } else {
        None
    }
}

/// The address that dotted-decimal text writes, if it is one.
pub open spec fn ipv4_of(s: Seq<char>) -> Option<u32> {
    let parts = split_on(s, '.');
    if parts.len() == 4 && octet_value(parts[0]) is Some && octet_value(parts[1]) is Some
        && octet_value(parts[2]) is Some && octet_value(parts[3]) is Some {
        Some((((octet_value(parts[0])->0 * 256 + octet_value(parts[1])->0) * 256
            + octet_value(parts[2])->0) * 256 + octet_value(parts[3])->0) as u32)
    } else {
        None
    }
}

fn parse_octet(t: &str) -> (r: Option<u32>)
    ensures
        r matches Some(v) ==> octet_value(t@) == Some(v as nat),
        r is None ==> octet_value(t@) is None,
{
    match parse_decimal(t, 255) {
        None => None,
        Some(v) => {
            if t.unicode_len() > 1 && t.get_char(0) == '0' {
                None
            } else {
                Some(v as u32)
            }
        },
    }
}

/// Reads a dotted-decimal IPv4 address.
pub fn parse_ipv4(s: &str) -> (r: Option<u32>)
    ensures
        r == ipv4_of(s@),
{
    let parts = split_text(s, '.');
    if parts.len() != 4 {
        return None;
    }
    let a = parse_octet(parts[0].as_str());
    let b = parse_octet(parts[1].as_str());
    let c = parse_octet(parts[2].as_str());
    let d = parse_octet(parts[3].as_str());
    assert(parts@[0]@ == split_on(s@, '.')[0]);
    assert(parts@[1]@ == split_on(s@, '.')[1]);
    assert(parts@[2]@ == split_on(s@, '.')[2]);
    assert(parts@[3]@ == split_on(s@, '.')[3]);
    match (a, b, c, d) {
        (Some(a), Some(b), Some(c), Some(d)) => Some(((a * 256 + b) * 256 + c) * 256 + d),
        _ => None,
    }
}

/// The value of a hexadecimal digit, if `c` is one.
pub open spec fn hex_digit(c: char) -> Option<nat> {
    if '0' <= c && c <= '9' {
        Some((c as u32 - '0' as u32) as nat)
    } else if 'a' <= c && c <= 'f' {
        Some((c as u32 - 'a' as u32 + 10) as nat)
    } else if 'A' <= c && c <= 'F' {
        Some((c as u32 - 'A' as u32 + 10) as nat)
    } else {
        None
    }
}

/// The value of a run of hex digits (None if some character is not one).
pub open spec fn hex_value(t: Seq<char>) -> Option<nat>
    decreases t.len(),
{
    if t.len() == 0 {
        Some(0)
    } else {
        match (hex_value(t.drop_last()), hex_digit(t.last())) {
            (Some(v), Some(d)) => Some(v * 16 + d),
            _ => None,
        }
    }
}

/// An IPv6 group: one to four hex digits.
pub open spec fn hex_group(t: Seq<char>) -> Option<nat> {
    if 1 <= t.len() <= 4 { hex_value(t) } else { None }
}

/// The groups of a colon-separated list (an empty text has none), if every
/// piece is a group.
pub open spec fn groups_of(t: Seq<char>) -> Option<Seq<nat>> {
    if t.len() == 0 {
        Some(Seq::empty())
    } else {
        let parts = split_on(t, ':');
        if forall|i: int| 0 <= i < parts.len() ==> #[trigger] hex_group(parts[i]) is Some {
            Some(parts.map_values(|p: Seq<char>| hex_group(p)->0))
        } else {
            None
        }
    }
}

/// The number that 16-bit groups write, most significant first.
pub open spec fn groups_value(g: Seq<nat>) -> nat
    decreases g.len(),
{
    if g.len() == 0 { 0 } else { groups_value(g.drop_last()) * 65536 + g.last() }
}

/// The first position of `::` in `s`.
pub open spec fn double_colon_at(s: Seq<char>) -> Option<nat>
    decreases s.len(),
{
    if s.len() < 2 {
        None
    } else if s[0] == ':' && s[1] == ':' {
        Some(0)
    } else {
        match double_colon_at(s.drop_first()) {
            Some(i) => Some(i + 1),
            None => None,
        }
    }
}

/// The address that IPv6 text writes: eight groups, or fewer with one `::`
/// standing for the missing zero groups (no embedded IPv4 form).
pub open spec fn ipv6_of(s: Seq<char>) -> Option<u128> {
    match double_colon_at(s) {
        None => match groups_of(s) {
            Some(g) if g.len() == 8 => Some(groups_value(g) as u128),
            _ => None,
        },
        Some(i) => match (groups_of(s.take(i as int)), groups_of(s.skip(i as int + 2))) {
            (Some(l), Some(r)) if l.len() + r.len() <= 7 =>
                Some(groups_value(l + Seq::new((8 - l.len() - r.len()) as nat, |j: int| 0nat) + r) as u128),
            _ => None,
        },
    }
}

/// The address that `s` writes: dotted-decimal IPv4, else IPv6.
pub open spec fn ip_of(s: Seq<char>) -> Option<IpAddress> {
    match ipv4_of(s) {
        Some(v) => Some(IpAddress::V4(v)),
        None => match ipv6_of(s) {
            Some(v) => Some(IpAddress::V6(v)),
            None => None,
        },
    }
}

pub fn parse_ip(s: &str) -> (r: Option<IpAddress>)
    ensures
        r == ip_of(s@),
{
    match parse_ipv4(s) {
        Some(v) => Some(IpAddress::V4(v)),
        None => match parse_ipv6(s) {
            Some(v) => Some(IpAddress::V6(v)),
            None => None,
        },
    }
}

fn hex_digit_of(c: char) -> (r: Option<u32>)
    ensures
        match r {
            Some(d) => hex_digit(c) == Some(d as nat) && d < 16,
            None => hex_digit(c) is None,
        },
{
    if '0' <= c && c <= '9' {
        Some(c as u32 - '0' as u32)
    } else if 'a' <= c && c <= 'f' {
        Some(c as u32 - 'a' as u32 + 10)
    } else if 'A' <= c && c <= 'F' {
        Some(c as u32 - 'A' as u32 + 10)
    } else {
        None
    }
}

proof fn lemma_hex_value_bound(t: Seq<char>)
    requires
        hex_value(t) is Some,
    ensures
        hex_value(t)->0 < pow16(t.len()),
    decreases t.len(),
{
    if t.len() > 0 {
        lemma_hex_value_bound(t.drop_last());
        let v = hex_value(t.drop_last())->0;
        let d = hex_digit(t.last())->0;
        assert(v * 16 + d < pow16(t.len())) by (nonlinear_arith)
            requires
                v < pow16((t.len() - 1) as nat),
                d < 16,
                pow16(t.len()) == pow16((t.len() - 1) as nat) * 16,
        ;
    }
}

/// 16 to the power `n`.
pub open spec fn pow16(n: nat) -> nat
    decreases n,
{
    if n == 0 { 1 } else { pow16((n - 1) as nat) * 16 }
}

fn parse_group(t: &str) -> (r: Option<u32>)
    ensures
        match r {
            Some(v) => hex_group(t@) == Some(v as nat) && v < 65536,
            None => hex_group(t@) is None,
        },
{
    let n = t.unicode_len();
    if n < 1 || n > 4 {
        return None;
    }
    let mut v: u32 = 0;
    let mut i: usize = 0;
    while i < n
        invariant
            n == t@.len(),
            1 <= n <= 4,
            i <= n,
            hex_value(t@.take(i as int)) == Some(v as nat),
            (v as nat) < pow16(i as nat),
        decreases n - i,
    {
        assert(t@.take(i as int + 1).drop_last() =~= t@.take(i as int));
        assert(pow16(i as nat) <= 4096) by {
            reveal_with_fuel(pow16, 5);
            assert(pow16(0) == 1);
            assert(pow16(1) == 16);
            assert(pow16(2) == 256);
            assert(pow16(3) == 4096);
        }
        match hex_digit_of(t.get_char(i)) {
            Some(d) => {
                v = v * 16 + d;
            },
            None => {
                proof {
                    lemma_hex_none_extends(t@, i as int + 1);
                }
                return None;
            },
        }
        i = i + 1;
    }
    assert(t@.take(n as int) =~= t@);
    assert(pow16(4) == 65536) by {
        reveal_with_fuel(pow16, 5);
        assert(pow16(1) == 16);
        assert(pow16(2) == 256);
        assert(pow16(3) == 4096);
    }
    proof {
        lemma_pow16_mono(n as nat, 4);
    }
    Some(v)
}

proof fn lemma_pow16_mono(a: nat, b: nat)
    requires
        a <= b,
    ensures
        pow16(a) <= pow16(b),
    decreases b - a,
{
    if a < b {
        lemma_pow16_mono(a, (b - 1) as nat);
    }
}

/// A text with a prefix that is not hex is not hex.
proof fn lemma_hex_none_extends(t: Seq<char>, k: int)
    requires
        0 <= k <= t.len(),
        hex_value(t.take(k)) is None,
    ensures
        hex_value(t) is None,
    decreases t.len() - k,
{
    if k < t.len() {
        assert(t.take(k + 1).drop_last() =~= t.take(k));
        lemma_hex_none_extends(t, k + 1);
    } else {
        assert(t.take(k) =~= t);
    }
}

/// Reads a colon-separated list of groups.
fn parse_groups(t: &str) -> (r: Option<Vec<u32>>)
    ensures
        match r {
            Some(g) => groups_of(t@) == Some(g@.map_values(|x: u32| x as nat))
                && forall|i: int| 0 <= i < g@.len() ==> #[trigger] g@[i] < 65536,
            None => groups_of(t@) is None,
        },
{
    let mut out: Vec<u32> = Vec::new();
    if t.unicode_len() == 0 {
        assert(out@.map_values(|x: u32| x as nat) =~= Seq::<nat>::empty());
        return Some(out);
    }
    let parts = split_text(t, ':');
    let ghost ps = split_on(t@, ':');
    let mut i: usize = 0;
    while i < parts.len()
        invariant
            ps == split_on(t@, ':'),
            t@.len() != 0,
            parts@.len() == ps.len(),
            forall|j: int| 0 <= j < parts@.len() ==> #[trigger] parts@[j]@ == ps[j],
            i <= ps.len(),
            out@.len() == i,
            forall|j: int| 0 <= j < i ==> #[trigger] hex_group(ps[j]) == Some(out@[j] as nat),
            forall|j: int| 0 <= j < i ==> #[trigger] out@[j] < 65536,
        decreases ps.len() - i,
    {
        match parse_group(parts[i].as_str()) {
            Some(v) => out.push(v),
            None => {
                assert(hex_group(ps[i as int]) is None);
                return None;
            },
        }
        i = i + 1;
    }
    assert(forall|j: int| 0 <= j < ps.len() ==> #[trigger] hex_group(ps[j]) is Some);
    assert(out@.map_values(|x: u32| x as nat) =~= ps.map_values(|p: Seq<char>| hex_group(p)->0));
    Some(out)
}

proof fn lemma_groups_value_bound(g: Seq<nat>)
    requires
        forall|i: int| 0 <= i < g.len() ==> #[trigger] g[i] < 65536,
    ensures
        groups_value(g) < pow16(4 * g.len()),
    decreases g.len(),
{
    if g.len() > 0 {
        let init = g.drop_last();
        assert forall|i: int| 0 <= i < init.len() implies #[trigger] init[i] < 65536 by {
            assert(init[i] == g[i]);
        }
        lemma_groups_value_bound(init);
        let k = (4 * init.len()) as nat;
        assert(pow16(k + 4) == pow16(k) * 65536) by {
            assert(pow16(k + 1) == pow16(k) * 16);
            assert(pow16(k + 2) == pow16(k + 1) * 16);
            assert(pow16(k + 3) == pow16(k + 2) * 16);
            assert(pow16(k + 4) == pow16(k + 3) * 16);
        }
        assert(groups_value(init) * 65536 + g.last() < pow16(k) * 65536) by (nonlinear_arith)
            requires
                groups_value(init) < pow16(k),
                g.last() < 65536,
        ;
    }
}

proof fn lemma_pow16_add(a: nat, b: nat)
    ensures
        pow16(a + b) == pow16(a) * pow16(b),
    decreases b,
{
    if b > 0 {
        let b1 = (b - 1) as nat;
        lemma_pow16_add(a, b1);
        assert(pow16(a + b) == pow16(a + b1) * 16);
        assert(pow16(b) == pow16(b1) * 16);
        let x = pow16(a);
        let y = pow16(b1);
        assert(x * y * 16 == x * (y * 16)) by (nonlinear_arith);
        assert(pow16(a + b) == x * pow16(b));
    } else {
        assert(a + b == a);
        assert(pow16(0) == 1);
    }
}

proof fn lemma_pow16_32()
    ensures
        pow16(32) == 0x1_0000_0000_0000_0000_0000_0000_0000_0000,
{
    reveal_with_fuel(pow16, 9);
    assert(pow16(8) == 0x1_0000_0000);
    lemma_pow16_add(8, 8);
    assert(pow16(16) == 0x1_0000_0000 * 0x1_0000_0000);
    lemma_pow16_add(16, 16);
    assert(pow16(32) == pow16(16) * pow16(16));
}

fn groups_number(g: &Vec<u32>) -> (r: u128)
    requires
        g@.len() == 8,
        forall|i: int| 0 <= i < g@.len() ==> #[trigger] g@[i] < 65536,
    ensures
        r as nat == groups_value(g@.map_values(|x: u32| x as nat)),
{
    let ghost gn = g@.map_values(|x: u32| x as nat);
    let mut acc: u128 = 0;
    let mut i: usize = 0;
    proof {
        lemma_pow16_32();
    }
    while i < 8
        invariant
            g@.len() == 8,
            gn == g@.map_values(|x: u32| x as nat),
            forall|j: int| 0 <= j < g@.len() ==> #[trigger] g@[j] < 65536,
            i <= 8,
            acc as nat == groups_value(gn.take(i as int)),
            pow16(32) == 0x1_0000_0000_0000_0000_0000_0000_0000_0000,
        decreases 8 - i,
    {
        assert(gn.take(i as int + 1).drop_last() =~= gn.take(i as int));
        proof {
            let t = gn.take(i as int + 1);
            assert forall|j: int| 0 <= j < t.len() implies #[trigger] t[j] < 65536 by {
                assert(t[j] == g@[j] as nat);
            }
            lemma_groups_value_bound(t);
            lemma_pow16_mono(4 * (i as nat + 1), 32);
        }
        acc = acc * 65536 + g[i] as u128;
        i = i + 1;
    }
    assert(gn.take(8) =~= gn);
    acc
}

fn find_double_colon(s: &str) -> (r: Option<usize>)
    ensures
        match r {
            Some(k) => double_colon_at(s@) == Some(k as nat) && k + 2 <= s@.len(),
            None => double_colon_at(s@) is None,
        },
{
    let n = s.unicode_len();
    let mut i: usize = 0;
    let last: usize = if n > 0 { n - 1 } else { 0 };
    assert(s@.skip(0) =~= s@);
    while i < last
        invariant
            n == s@.len(),
            last == if n > 0 { n - 1 } else { 0 },
            i <= n,
            double_colon_at(s@) == match double_colon_at(s@.skip(i as int)) {
                Some(k) => Some((k + i) as nat),
                None => None::<nat>,
            },
        decreases n - i,
    {
        assert(s@.skip(i as int)[0] == s@[i as int]);
        assert(s@.skip(i as int)[1] == s@[i as int + 1]);
        if s.get_char(i) == ':' && s.get_char(i + 1) == ':' {
            return Some(i);
        }
        assert(s@.skip(i as int).drop_first() =~= s@.skip(i as int + 1));
        i = i + 1;
    }
    assert(s@.skip(i as int).len() < 2);
    None
}

/// Reads an IPv6 address (see `ipv6_of`).
pub fn parse_ipv6(s: &str) -> (r: Option<u128>)
    ensures
        r == ipv6_of(s@),
{
    match find_double_colon(s) {
        None => match parse_groups(s) {
            Some(g) => {
                if g.len() == 8 {
                    Some(groups_number(&g))
                } else {
                    None
                }
            },
            None => None,
        },
        Some(k) => {
            let n = s.unicode_len();
            let left = s.substring_char(0, k);
            let right = s.substring_char(k + 2, n);
            assert(left@ == s@.take(k as int));
            assert(right@ == s@.skip(k as int + 2));
            let l = match parse_groups(left) {
                Some(l) => l,
                None => {
                    return None;
                },
            };
            let r = match parse_groups(right) {
                Some(r) => r,
                None => {
                    return None;
                },
            };
            if l.len() > 7 || r.len() > 7 - l.len() {
                return None;
            }
            let zeros = 8 - l.len() - r.len();
            let mut full: Vec<u32> = Vec::new();
            let mut i: usize = 0;
            while i < l.len()
                invariant
                    i <= l@.len(),
                    full@ == l@.take(i as int),
                decreases l@.len() - i,
            {
                full.push(l[i]);
                i = i + 1;
                assert(full@ =~= l@.take(i as int));
            }
            assert(l@.take(l@.len() as int) =~= l@);
            let mut z: usize = 0;
            while z < zeros
                invariant
                    z <= zeros,
                    full@ == l@ + Seq::new(z as nat, |j: int| 0u32),
                decreases zeros - z,
            {
                full.push(0);
                z = z + 1;
                assert(full@ =~= l@ + Seq::new(z as nat, |j: int| 0u32));
            }
            let mut j: usize = 0;
            while j < r.len()
                invariant
                    j <= r@.len(),
                    full@ == l@ + Seq::new(zeros as nat, |j: int| 0u32) + r@.take(j as int),
                decreases r@.len() - j,
            {
                full.push(r[j]);
                j = j + 1;
                assert(full@ =~= l@ + Seq::new(zeros as nat, |j: int| 0u32) + r@.take(j as int));
            }
            assert(r@.take(r@.len() as int) =~= r@);
            assert(full@.map_values(|x: u32| x as nat) =~= l@.map_values(|x: u32| x as nat) + Seq::new(
                zeros as nat, |j: int| 0nat) + r@.map_values(|x: u32| x as nat));
            assert forall|i: int| 0 <= i < full@.len() implies #[trigger] full@[i] < 65536 by {
                if i < l@.len() {
                } else if i < l@.len() + zeros {
                } else {
                    assert(full@[i] == r@[i - l@.len() - zeros]);
                }
            }
            Some(groups_number(&full))
        },
    }
}

/// Whether the leading `prefix` bits of two `bits`-bit numbers agree.
pub open spec fn prefix_match(ip: nat, net: nat, bits: nat, prefix: nat) -> bool {
    if prefix >= bits {
        ip == net
    } else {
        ip / pow2((bits - prefix) as nat) == net / pow2((bits - prefix) as nat)
    }
}

/// Whether `net` holds `ip`; an address never lies in a network of the other family.
pub open spec fn network_contains(net: IpNetwork, ip: IpAddress) -> bool {
    match (net, ip) {
        (IpNetwork::V4(n), IpAddress::V4(a)) => prefix_match(a as nat, n.network as nat, 32, n.prefix as nat),
        (IpNetwork::V6(n), IpAddress::V6(a)) => prefix_match(a as nat, n.network as nat, 128, n.prefix as nat),
        _ => false,
    }
}

proof fn lemma_pow2_128()
    ensures
        pow2(128) == 0x1_0000_0000_0000_0000_0000_0000_0000_0000,
        pow2(32) == 0x1_0000_0000,
{
    lemma2_to64();
    lemma_pow2_adds(64, 64);
}

fn v4_in(a: u32, n: Ipv4Network) -> (r: bool)
    ensures
        r == prefix_match(a as nat, n.network as nat, 32, n.prefix as nat),
{
    if n.prefix >= 32 {
        a == n.network
    } else if n.prefix == 0 {
        proof {
            lemma_pow2_128();
        }
        true
    } else {
        let shift: u32 = 32 - n.prefix as u32;
        proof {
            lemma_u32_shr_is_div(a, shift);
            lemma_u32_shr_is_div(n.network, shift);
        }
        (a >> shift) == (n.network >> shift)
    }
}

fn v6_in(a: u128, n: Ipv6Network) -> (r: bool)
    ensures
        r == prefix_match(a as nat, n.network as nat, 128, n.prefix as nat),
{
    if n.prefix >= 128 {
        a == n.network
    } else if n.prefix == 0 {
        proof {
            lemma_pow2_128();
        }
        true
    } else {
        let shift: u128 = 128 - n.prefix as u128;
        proof {
            lemma_u128_shr_is_div(a, shift);
            lemma_u128_shr_is_div(n.network, shift);
        }
        (a >> shift) == (n.network >> shift)
    }
}

pub fn ip_in_network(ip: &IpAddress, network: &IpNetwork) -> (r: bool)
    ensures
        r == network_contains(*network, *ip),
{
    match (ip, network) {
        (IpAddress::V4(a), IpNetwork::V4(n)) => v4_in(*a, *n),
        (IpAddress::V6(a), IpNetwork::V6(n)) => v6_in(*a, *n),
        _ => false,
    }
}

/// What a network text means: `address/prefix`, or a bare address standing
/// for itself alone (a prefix of the address's full length).
pub open spec fn network_of(s: Seq<char>) -> Result<IpNetwork, NetworkParseError> {
    let parts = split_on(s, '/');
    if parts.len() > 2 {
        Err(NetworkParseError::InvalidFormat)
    } else if parts.len() == 2 && decimal_at_most(parts[1], 255) is None {
        Err(NetworkParseError::InvalidPrefix)
    } else {
        match ip_of(parts[0]) {
            None => Err(NetworkParseError::InvalidAddress),
            Some(IpAddress::V4(a)) => {
                let prefix = if parts.len() == 2 { decimal_at_most(parts[1], 255)->0 } else { 32 };
                if prefix > 32 {
                    Err(NetworkParseError::InvalidPrefix)
                } else {
                    Ok(IpNetwork::V4(Ipv4Network { network: a, prefix: prefix as u8 }))
                }
            },
            Some(IpAddress::V6(a)) => {
                let prefix = if parts.len() == 2 { decimal_at_most(parts[1], 255)->0 } else { 128 };
                if prefix > 128 {
                    Err(NetworkParseError::InvalidPrefix)
                } else {
                    Ok(IpNetwork::V6(Ipv6Network { network: a, prefix: prefix as u8 }))
                }
            },
        }
    }
}

pub fn parse_network(network: &str) -> (r: Result<IpNetwork, NetworkParseError>)
    ensures
        r == network_of(network@),
{
    let parts = split_text(network, '/');
    proof {
        crate::text::lemma_split_nonempty(network@, '/');
    }
    assert(parts@[0]@ == split_on(network@, '/')[0]);
    if parts.len() > 2 {
        return Err(NetworkParseError::InvalidFormat);
    }
    let mut given: Option<u64> = None;
    if parts.len() == 2 {
        assert(parts@[1]@ == split_on(network@, '/')[1]);
        match parse_decimal(parts[1].as_str(), 255) {
            None => {
                return Err(NetworkParseError::InvalidPrefix);
            },
            Some(p) => {
                given = Some(p);
            },
        }
    }
    match parse_ip(parts[0].as_str()) {
        None => Err(NetworkParseError::InvalidAddress),
        Some(IpAddress::V4(a)) => {
            let prefix: u64 = match given { Some(p) => p, None => 32 };
            if prefix > 32 {
                Err(NetworkParseError::InvalidPrefix)
            } else {
                Ok(IpNetwork::V4(Ipv4Network { network: a, prefix: prefix as u8 }))
            }
        },
        Some(IpAddress::V6(a)) => {
            let prefix: u64 = match given { Some(p) => p, None => 128 };
            if prefix > 128 {
                Err(NetworkParseError::InvalidPrefix)
            } else {
                Ok(IpNetwork::V6(Ipv6Network { network: a, prefix: prefix as u8 }))
            }
        },
    }
}

/// Length of a rate window, in milliseconds.
pub const RATE_WINDOW_MS: u64 = 60_000;

/// Whether some network of `nets` holds `ip`.
pub open spec fn any_contains(nets: Seq<IpNetwork>, ip: IpAddress) -> bool {
    exists|j: int| 0 <= j < nets.len() && network_contains(#[trigger] nets[j], ip)
}

/// The list rule: a denied address is refused; otherwise a non-empty allow
/// list must hold the address; an empty one lets every address through.
pub open spec fn lists_allow(allow: Seq<IpNetwork>, deny: Seq<IpNetwork>, ip: IpAddress) -> bool {
    !any_contains(deny, ip) && (allow.len() == 0 || any_contains(allow, ip))
}

/// One client's window: requests counted, and when the window began (ms).
#[derive(PartialEq, Eq, Structural, Clone, Copy, Debug)]
pub struct RateWindow {
    pub request_count: u32,
    pub last_reset: u64,
}

/// The window after one more request at `now`: a missing window starts at
/// `now`; one that began over a minute before restarts at `now`; the count
/// then grows by one (held at the largest `u32`).
pub open spec fn rate_step(prev: Option<RateWindow>, now: u64) -> RateWindow {
    let w = match prev {
        Some(w) => w,
        None => RateWindow { request_count: 0, last_reset: now },
    };
    let w = if now >= w.last_reset && now - w.last_reset > RATE_WINDOW_MS {
        RateWindow { request_count: 0, last_reset: now }
    } else {
        w
    };
    RateWindow {
        request_count: if w.request_count == u32::MAX { u32::MAX } else { (w.request_count + 1) as u32 },
        last_reset: w.last_reset,
    }
}

struct RateLimitInfo {
    client: String,
    window: RateWindow,
}

/// The window of `client` in a table (the first entry for it).
pub open spec fn window_in(table: Seq<(Seq<char>, RateWindow)>, client: Seq<char>) -> Option<RateWindow>
    decreases table.len(),
{
    if table.len() == 0 {
        None
    } else if table[0].0 == client {
        Some(table[0].1)
    } else {
        window_in(table.drop_first(), client)
    }
}

/// The outcome of the access rules for one request.
#[derive(PartialEq, Eq, Structural, Clone, Copy, Debug)]
pub enum AccessDecision {
    Allow,
    /// Refused by the lists (403).
    Forbidden,
    /// Over the per-minute budget (429).
    TooManyRequests,
}

/// Allow and deny lists plus per-client request windows.
pub struct IpFilter {
    allow_list: Vec<IpNetwork>,
    deny_list: Vec<IpNetwork>,
    rate_limiter: Vec<RateLimitInfo>,
    max_requests_per_minute: u32,
}

impl IpFilter {
    pub closed spec fn allowed_networks(&self) -> Seq<IpNetwork> {
        self.allow_list@
    }

    pub closed spec fn denied_networks(&self) -> Seq<IpNetwork> {
        self.deny_list@
    }

    pub closed spec fn limit(&self) -> nat {
        self.max_requests_per_minute as nat
    }

    pub closed spec fn table(&self) -> Seq<(Seq<char>, RateWindow)> {
        self.rate_limiter@.map_values(|e: RateLimitInfo| (e.client@, e.window))
    }

    /// The current window of `client`, if it has made a request.
    pub open spec fn window(&self, client: Seq<char>) -> Option<RateWindow> {
        window_in(self.table(), client)
    }

    pub fn new(max_requests_per_minute: u32) -> (r: Self)
        ensures
            r.allowed_networks().len() == 0,
            r.denied_networks().len() == 0,
            r.limit() == max_requests_per_minute,
            forall|c: Seq<char>| #[trigger] r.window(c) is None,
    {
        IpFilter {
            allow_list: Vec::new(),
            deny_list: Vec::new(),
            rate_limiter: Vec::new(),
            max_requests_per_minute,
        }
    }

    /// Adds a network to the allow list; a text that is no network is refused
    /// and leaves the filter as it was.
    pub fn allow(&mut self, network: &str) -> (r: Result<(), NetworkParseError>)
        ensures
            network_of(network@) matches Ok(n) ==> r is Ok
                && final(self).allowed_networks() == old(self).allowed_networks().push(n),
            network_of(network@) matches Err(e) ==> r == Err::<(), NetworkParseError>(e)
                && final(self).allowed_networks() == old(self).allowed_networks(),
            final(self).denied_networks() == old(self).denied_networks(),
            final(self).limit() == old(self).limit(),
            final(self).table() == old(self).table(),
    {
        let n = parse_network(network)?;
        self.allow_list.push(n);
        Ok(())
    }

    /// Adds a network to the deny list; a text that is no network is refused
    /// and leaves the filter as it was.
    pub fn deny(&mut self, network: &str) -> (r: Result<(), NetworkParseError>)
        ensures
            network_of(network@) matches Ok(n) ==> r is Ok
                && final(self).denied_networks() == old(self).denied_networks().push(n),
            network_of(network@) matches Err(e) ==> r == Err::<(), NetworkParseError>(e)
                && final(self).denied_networks() == old(self).denied_networks(),
            final(self).allowed_networks() == old(self).allowed_networks(),
            final(self).limit() == old(self).limit(),
            final(self).table() == old(self).table(),
    {
        let n = parse_network(network)?;
        self.deny_list.push(n);
        Ok(())
    }

    /// Puts in place both lists at once.
    pub fn set_lists(&mut self, allow: Vec<IpNetwork>, deny: Vec<IpNetwork>)
        ensures
            final(self).allowed_networks() == allow@,
            final(self).denied_networks() == deny@,
            final(self).limit() == old(self).limit(),
            final(self).table() == old(self).table(),
    {
        self.allow_list = allow;
        self.deny_list = deny;
    }

    fn any_match(nets: &Vec<IpNetwork>, ip: &IpAddress) -> (r: bool)
        ensures
            r == any_contains(nets@, *ip),
    {
        let mut i: usize = 0;
        while i < nets.len()
            invariant
                i <= nets@.len(),
                forall|j: int| 0 <= j < i ==> !network_contains(#[trigger] nets@[j], *ip),
            decreases nets@.len() - i,
        {
            if ip_in_network(ip, &nets[i]) {
                return true;
            }
            i = i + 1;
        }
        false
    }

    /// Whether the lists let `ip` through. Text that is no address is not
    /// filtered by the lists (it still counts for rate limiting).
    pub fn is_allowed(&self, ip: &str) -> (r: bool)
        ensures
            r == match ip_of(ip@) {
                Some(a) => lists_allow(self.allowed_networks(), self.denied_networks(), a),
                None => true,
            },
    {
        match parse_ip(ip) {
            None => true,
            Some(a) => {
                if Self::any_match(&self.deny_list, &a) {
                    return false;
                }
                if self.allow_list.len() > 0 {
                    return Self::any_match(&self.allow_list, &a);
                }
                true
            },
        }
    }

    /// Counts one request of `ip` at `now` (ms) and tells whether it goes
    /// over the per-minute budget.
    pub fn is_rate_limited(&mut self, ip: &str, now: u64) -> (r: bool)
        ensures
            final(self).window(ip@) == Some(rate_step(old(self).window(ip@), now)),
            forall|c: Seq<char>| c != ip@ ==> #[trigger] final(self).window(c) == old(self).window(c),
            r == (rate_step(old(self).window(ip@), now).request_count > old(self).limit()),
            final(self).allowed_networks() == old(self).allowed_networks(),
            final(self).denied_networks() == old(self).denied_networks(),
            final(self).limit() == old(self).limit(),
    {
        let ghost t0 = self.table();
        let mut i: usize = 0;
        assert(t0.skip(0) =~= t0);
        while i < self.rate_limiter.len()
            invariant
                t0 == self.table(),
                *self == *old(self),
                i <= self.rate_limiter@.len(),
                window_in(t0, ip@) == window_in(t0.skip(i as int), ip@),
                forall|j: int| 0 <= j < i ==> (#[trigger] t0[j]).0 != ip@,
            decreases self.rate_limiter@.len() - i,
        {
            assert(t0.skip(i as int).drop_first() =~= t0.skip(i as int + 1));
            if crate::load_balancing::string_eq_str(&self.rate_limiter[i].client, ip) {
                let w = self.rate_limiter[i].window;
                assert(t0.skip(i as int)[0] == t0[i as int]);
                assert(t0[i as int] == (ip@, w));
                let next = Self::step(w, now);
                let ghost before = self.rate_limiter@;
                self.rate_limiter.set(i, RateLimitInfo { client: ip.to_owned(), window: next });
                proof {
                    lemma_window_update(t0, i as int, ip@, next);
                    assert(self.table() =~= t0.update(i as int, (ip@, next)));
                }
                return next.request_count > self.max_requests_per_minute;
            }
            i = i + 1;
        }
        assert(t0.skip(t0.len() as int) =~= Seq::<(Seq<char>, RateWindow)>::empty());
        let first = RateWindow { request_count: 0, last_reset: now };
        let next = Self::step(first, now);
        self.rate_limiter.push(RateLimitInfo { client: ip.to_owned(), window: next });
        proof {
            assert(self.table() =~= t0.push((ip@, next)));
            lemma_window_push(t0, ip@, next);
        }
        next.request_count > self.max_requests_per_minute
    }

    fn step(w: RateWindow, now: u64) -> (r: RateWindow)
        ensures
            r == rate_step(Some(w), now),
            r == rate_step(None, now) <== w == (RateWindow { request_count: 0, last_reset: now }),
    {
        let mut w = w;
        if now >= w.last_reset && now - w.last_reset > RATE_WINDOW_MS {
            w = RateWindow { request_count: 0, last_reset: now };
        }
        let count = if w.request_count == u32::MAX { u32::MAX } else { w.request_count + 1 };
        RateWindow { request_count: count, last_reset: w.last_reset }
    }

    /// The access rules for one request at `now` (ms): nothing is checked
    /// when access control is off; the lists come next (403); then, when rate
    /// limiting is on, the client's window (429).
    pub fn evaluate(&mut self, access_control: bool, rate_limiting: bool, ip: &str, now: u64) -> (r: AccessDecision)
        ensures
            !access_control ==> r == AccessDecision::Allow && final(self).table() == old(self).table(),
            access_control && !old(self).lists_let_through(ip@) ==> r == AccessDecision::Forbidden
                && final(self).table() == old(self).table(),
            access_control && old(self).lists_let_through(ip@) && !rate_limiting ==> r == AccessDecision::Allow
                && final(self).table() == old(self).table(),
            access_control && old(self).lists_let_through(ip@) && rate_limiting ==>
                final(self).window(ip@) == Some(rate_step(old(self).window(ip@), now))
                && (forall|c: Seq<char>| c != ip@ ==> #[trigger] final(self).window(c) == old(self).window(c))
                && r == if rate_step(old(self).window(ip@), now).request_count > old(self).limit() {
                    AccessDecision::TooManyRequests
                } else {
                    AccessDecision::Allow
                },
            final(self).allowed_networks() == old(self).allowed_networks(),
            final(self).denied_networks() == old(self).denied_networks(),
            final(self).limit() == old(self).limit(),
    {
        if !access_control {
            return AccessDecision::Allow;
        }
        if !self.is_allowed(ip) {
            return AccessDecision::Forbidden;
        }
        if rate_limiting && self.is_rate_limited(ip, now) {
            return AccessDecision::TooManyRequests;
        }
        AccessDecision::Allow
    }

    /// Whether the lists let the text `ip` through (see `is_allowed`).
    pub open spec fn lists_let_through(&self, ip: Seq<char>) -> bool {
        match ip_of(ip) {
            Some(a) => lists_allow(self.allowed_networks(), self.denied_networks(), a),
            None => true,
        }
    }
}

proof fn lemma_window_update(t: Seq<(Seq<char>, RateWindow)>, i: int, client: Seq<char>, w: RateWindow)
    requires
        0 <= i < t.len(),
        t[i].0 == client,
        forall|j: int| 0 <= j < i ==> (#[trigger] t[j]).0 != client,
    ensures
        window_in(t.update(i, (client, w)), client) == Some(w),
        forall|c: Seq<char>| c != client ==> #[trigger] window_in(t.update(i, (client, w)), c) == window_in(t, c),
    decreases t.len(),
{
    let u = t.update(i, (client, w));
    if i > 0 {
        assert(u.drop_first() =~= t.drop_first().update(i - 1, (client, w)));
        lemma_window_update(t.drop_first(), i - 1, client, w);
        assert(u[0] == t[0]);
        assert forall|c: Seq<char>| c != client implies #[trigger] window_in(u, c) == window_in(t, c) by {
            assert(window_in(u.drop_first(), c) == window_in(t.drop_first(), c));
        }
    } else {
        assert(u.drop_first() =~= t.drop_first());
        assert forall|c: Seq<char>| c != client implies #[trigger] window_in(u, c) == window_in(t, c) by {
            assert(u[0].0 != c);
        }
    }
}

proof fn lemma_window_push(t: Seq<(Seq<char>, RateWindow)>, client: Seq<char>, w: RateWindow)
    requires
        forall|j: int| 0 <= j < t.len() ==> (#[trigger] t[j]).0 != client,
    ensures
        window_in(t.push((client, w)), client) == Some(w),
        forall|c: Seq<char>| c != client ==> #[trigger] window_in(t.push((client, w)), c) == window_in(t, c),
    decreases t.len(),
{
    if t.len() > 0 {
        assert(t.push((client, w)).drop_first() =~= t.drop_first().push((client, w)));
        lemma_window_push(t.drop_first(), client, w);
    } else {
        assert(t.push((client, w)).drop_first() =~= t);
    }
}

/// The window of one client after requests at `times`, in order, starting from `prev`.
pub open spec fn replay(prev: Option<RateWindow>, times: Seq<u64>) -> Option<RateWindow>
    decreases times.len(),
{
    if times.len() == 0 {
        prev
    } else {
        Some(rate_step(replay(prev, times.drop_last()), times.last()))
    }
}

/// Rate limiting: the requests of a new client at times that lie within one
/// minute of its first request are counted one by one in one window (so the
/// one after the first `max` goes over a budget of `max`), and a request more
/// than a minute after that window began starts a new window that counts 1.
pub proof fn lemma_rate_limiting(times: Seq<u64>, later: u64)
    requires
        times.len() > 0,
        times.len() < u32::MAX,
        forall|j: int| 0 <= j < times.len() ==> times[0] <= #[trigger] times[j] && times[j] - times[0] <= RATE_WINDOW_MS,
    ensures
        replay(None, times) == Some(RateWindow { request_count: times.len() as u32, last_reset: times[0] }),
        later >= times[0] && later - times[0] > RATE_WINDOW_MS ==> rate_step(replay(None, times), later)
            == (RateWindow { request_count: 1, last_reset: later }),
    decreases times.len(),
{
    if times.len() > 1 {
        let init = times.drop_last();
        assert forall|j: int| 0 <= j < init.len() implies init[0] <= #[trigger] init[j] && init[j] - init[0]
            <= RATE_WINDOW_MS by {
            assert(init[j] == times[j]);
        }
        lemma_rate_limiting(init, later);
        let last = times[times.len() - 1];
        assert(times[0] <= last && last - times[0] <= RATE_WINDOW_MS);
        assert(init[0] == times[0]);
        assert(replay(None, times) == Some(rate_step(replay(None, init), last)));
    } else {
        assert(times.drop_last().len() == 0);
        assert(replay(None, times.drop_last()) == None::<RateWindow>);
        assert(replay(None, times) == Some(rate_step(None, times[0])));
    }
}

} // verus!
