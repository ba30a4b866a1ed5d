//! Internet addresses and the literals that write them.
//!
//! An IPv4 literal is four decimal octets joined by dots. An IPv6 literal is
//! eight groups of up to four hexadecimal digits joined by colons, where one
//! run of zero groups may be written `::` and the last two groups may be
//! written as an IPv4 literal.

use vstd::prelude::*;
use vstd::slice::slice_subrange;
use crate::decoder::be_value;
use crate::text::{
    all_digits, bounds_within, decimal_value, fields_at, find, is_digit, parse_unsigned,
    position, split, split_bounds, unsigned_literal,
};

verus! {

/// An IPv4 address: its four octets as one number, the first octet in the
/// most significant byte.
#[derive(Clone, Copy, Debug, PartialEq, Eq, Structural)]
pub struct Ipv4Addr {
    pub bits: u32,
}

/// An IPv6 address: its eight groups as one number, the first group in the
/// most significant sixteen bits.
#[derive(Clone, Copy, Debug, PartialEq, Eq, Structural)]
pub struct Ipv6Addr {
    pub bits: u128,
}

/// An address of either family.
#[derive(Clone, Copy, Debug, PartialEq, Eq, Structural)]
pub enum IpAddr {
    V4(Ipv4Addr),
    V6(Ipv6Addr),
}

/// An address together with a port.
#[derive(Clone, Copy, Debug, PartialEq, Eq, Structural)]
pub struct SocketAddr {
    pub ip: IpAddr,
    pub port: u16,
}

/// The number that sixteen-bit groups write, most significant first.
pub open spec fn groups_value(groups: Seq<u16>) -> nat
    decreases groups.len(),
{
    if groups.len() == 0 {
        0
    } else {
        groups_value(groups.drop_last()) * 65536 + groups.last() as nat
    }
}

impl Ipv4Addr {
    /// The address `a.b.c.d`.
    pub fn new(a: u8, b: u8, c: u8, d: u8) -> (addr: Ipv4Addr)
        ensures
            addr.bits == be_value(seq![a, b, c, d]),
    {
        let bits: u32 = ((a as u32 * 256 + b as u32) * 256 + c as u32) * 256 + d as u32;
        proof {
            lemma_four_octets(a, b, c, d);
        }
        Ipv4Addr { bits }
    }

    /// The four octets, first octet first.
    pub fn octets(&self) -> (octets: [u8; 4])
        ensures
            self.bits == be_value(octets@),
    {
        let a: u8 = (self.bits / 16777216) as u8;
        let b: u8 = (self.bits / 65536 % 256) as u8;
        let c: u8 = (self.bits / 256 % 256) as u8;
        let d: u8 = (self.bits % 256) as u8;
        let octets = [a, b, c, d];
        proof {
            lemma_four_octets(a, b, c, d);
        }
        octets
    }
}

/// The value of four octets, written out.
pub proof fn lemma_four_octets(a: u8, b: u8, c: u8, d: u8)
    ensures
        be_value(seq![a, b, c, d]) == ((a as nat * 256 + b as nat) * 256 + c as nat) * 256
            + d as nat,
{
    let s4 = seq![a, b, c, d];
    let s3 = seq![a, b, c];
    let s2 = seq![a, b];
    let s1 = seq![a];
    assert(s4.drop_last() =~= s3);
    assert(s3.drop_last() =~= s2);
    assert(s2.drop_last() =~= s1);
    assert(s1.drop_last() =~= Seq::<u8>::empty());
    assert(be_value(Seq::<u8>::empty()) == 0);
    assert(be_value(s1) == a as nat);
    assert(be_value(s2) == a as nat * 256 + b as nat);
    assert(be_value(s3) == (a as nat * 256 + b as nat) * 256 + c as nat);
}

impl Ipv6Addr {
    /// The address whose eight groups are `groups`, first group first.
    pub fn new(groups: [u16; 8]) -> (addr: Ipv6Addr)
        ensures
            addr.bits == groups_value(groups@),
    {
        let mut bits: u128 = 0;
        let mut i: usize = 0;
        while i < 8
            invariant
                i <= 8,
                bits == groups_value(groups@.take(i as int)),
                bits < group_limit(i as nat),
            decreases 8 - i,
        {
            proof {
                assert(groups@.take(i + 1).drop_last() =~= groups@.take(i as int));
                lemma_group_limit(i as nat);
            }
            bits = bits * 65536 + groups[i] as u128;
            i += 1;
        }
        assert(groups@.take(8) =~= groups@);
        Ipv6Addr { bits }
    }
}

/// One more than the greatest number that `n` groups write.
pub open spec fn group_limit(n: nat) -> nat
    decreases n,
{
    if n == 0 {
        1
    } else {
        group_limit((n - 1) as nat) * 65536
    }
}

/// Up to eight groups fit in 128 bits.
pub proof fn lemma_group_limit(n: nat)
    ensures
        n <= 8 ==> group_limit(n) <= 0x1_0000_0000_0000_0000_0000_0000_0000_0000,
        n < 8 ==> group_limit(n) * 65536 <= 0x1_0000_0000_0000_0000_0000_0000_0000_0000,
        group_limit(n + 1) == group_limit(n) * 65536,
{
    reveal_with_fuel(group_limit, 10);
}

/// Whether `c` is a hexadecimal digit, in either case.
pub open spec fn is_hex_digit(c: char) -> bool {
    is_digit(c) || ('a' <= c <= 'f') || ('A' <= c <= 'F')
}

/// The number that the hexadecimal digit `c` stands for.
pub open spec fn hex_digit_value(c: char) -> nat {
    if is_digit(c) {
        (c as u32 - '0' as u32) as nat
    } else if 'a' <= c <= 'f' {
        (c as u32 - 'a' as u32 + 10) as nat
    } else {
        (c as u32 - 'A' as u32 + 10) as nat
    }
}

/// Whether `s` holds hexadecimal digits only.
pub open spec fn all_hex_digits(s: Seq<char>) -> bool {
    forall|i: int| 0 <= i < s.len() ==> is_hex_digit(#[trigger] s[i])
}

/// The number that the hexadecimal digits `s` write, most significant first.
pub open spec fn hex_value(s: Seq<char>) -> nat
    decreases s.len(),
{
    if s.len() == 0 {
        0
    } else {
        hex_value(s.drop_last()) * 16 + hex_digit_value(s.last())
    }
}

/// The group that `s` writes: one to four hexadecimal digits.
pub open spec fn hex_group(s: Seq<char>) -> Option<u16> {
    if 1 <= s.len() <= 4 && all_hex_digits(s) {
        Some(hex_value(s) as u16)
    } else {
        None
    }
}

/// The octet that `s` writes: one to three decimal digits, no greater than 255
/// and without a leading zero before another digit.
pub open spec fn dec_octet(s: Seq<char>) -> Option<u8> {
    if 1 <= s.len() <= 3 && all_digits(s) && (s.len() == 1 || s[0] != '0') && decimal_value(s)
        <= 255 {
        Some(decimal_value(s) as u8)
    } else {
        None
    }
}

/// The octets that `parts` write, if each part writes one.
pub open spec fn dec_octets(parts: Seq<Seq<char>>) -> Option<Seq<u8>> {
    if forall|k: int| 0 <= k < parts.len() ==> (#[trigger] dec_octet(parts[k])) is Some {
        Some(Seq::new(parts.len(), |k: int| dec_octet(parts[k])->0))
    } else {
        None
    }
}

/// The groups that `parts` write, if each part writes one.
pub open spec fn hex_groups(parts: Seq<Seq<char>>) -> Option<Seq<u16>> {
    if forall|k: int| 0 <= k < parts.len() ==> (#[trigger] hex_group(parts[k])) is Some {
        Some(Seq::new(parts.len(), |k: int| hex_group(parts[k])->0))
    } else {
        None
    }
}

/// The address that `s` writes as an IPv4 literal: four octets joined by dots.
pub open spec fn ipv4_literal(s: Seq<char>) -> Option<Ipv4Addr> {
    match dec_octets(split(s, '.')) {
        Some(octets) => if octets.len() == 4 {
            Some(Ipv4Addr { bits: be_value(octets) as u32 })
        } else {
            None
        },
        None => None,
    }
}

/// The parts of `s` between colons; an empty text has no part.
pub open spec fn colon_parts(s: Seq<char>) -> Seq<Seq<char>> {
    if s.len() == 0 {
        Seq::empty()
    } else {
        split(s, ':')
    }
}

/// The groups that `parts` write where the last part may be an IPv4 literal,
/// which stands for two groups.
pub open spec fn groups_with_quad(parts: Seq<Seq<char>>) -> Option<Seq<u16>> {
    if parts.len() > 0 && ipv4_literal(parts.last()) is Some {
        let quad = ipv4_literal(parts.last())->0;
        match hex_groups(parts.drop_last()) {
            Some(groups) => Some(
                groups.push((quad.bits / 65536) as u16).push((quad.bits % 65536) as u16),
            ),
            None => None,
        }
    } else {
        hex_groups(parts)
    }
}

/// The text `::`.
pub open spec fn double_colon() -> Seq<char> {
    seq![':', ':']
}

/// The eight groups that `s` writes as an IPv6 literal. Before the first `::`
/// stand plain groups; after it, or where there is none, the last part may be
/// an IPv4 literal. A `::` stands for at least one zero group.
pub open spec fn ipv6_groups(s: Seq<char>) -> Option<Seq<u16>> {
    match position(s, double_colon()) {
        Some(i) => match (
            hex_groups(colon_parts(s.take(i))),
            groups_with_quad(colon_parts(s.skip(i + 2))),
        ) {
            (Some(head), Some(tail)) => if head.len() + tail.len() <= 7 {
                Some(
                    head + Seq::new((8 - head.len() - tail.len()) as nat, |k: int| 0u16) + tail,
                )
            } else {
                None
            },
            _ => None,
        },
        None => match groups_with_quad(colon_parts(s)) {
            Some(groups) => if groups.len() == 8 {
                Some(groups)
            } else {
                None
            },
            None => None,
        },
    }
}

/// The address that `s` writes as an IPv6 literal.
pub open spec fn ipv6_literal(s: Seq<char>) -> Option<Ipv6Addr> {
    match ipv6_groups(s) {
        Some(groups) => Some(Ipv6Addr { bits: groups_value(groups) as u128 }),
        None => None,
    }
}

/// The address that `s` writes as a literal of either family.
pub open spec fn ip_literal(s: Seq<char>) -> Option<IpAddr> {
    match ipv4_literal(s) {
        Some(addr) => Some(IpAddr::V4(addr)),
        None => match ipv6_literal(s) {
            Some(addr) => Some(IpAddr::V6(addr)),
            None => None,
        },
    }
}

/// The port that `s` writes: an unsigned decimal literal below 65536.
pub open spec fn port_literal(s: Seq<char>) -> Option<u16> {
    match unsigned_literal(s, 65535) {
        Some(v) => Some(v as u16),
        None => None,
    }
}

/// Reads `chars` as a port number.
pub fn parse_port(chars: &[char]) -> (port: Option<u16>)
    ensures
        port == port_literal(chars@),
{
    match parse_unsigned(chars, 65535) {
        Some(v) => Some(v as u16),
        None => None,
    }
}

fn parse_octet(chars: &[char]) -> (octet: Option<u8>)
    ensures
        octet == dec_octet(chars@),
{
    let n = chars.len();
    if n < 1 || n > 3 {
        return None;
    }
    let first = chars[0];
    if !(first >= '0' && first <= '9') {
        return None;
    }
    if n > 1 && first == '0' {
        return None;
    }
    match parse_unsigned(chars, 255) {
        Some(v) => Some(v as u8),
        None => None,
    }
}

fn parse_hex_group(chars: &[char]) -> (group: Option<u16>)
    ensures
        group == hex_group(chars@),
{
    let n = chars.len();
    if n < 1 || n > 4 {
        return None;
    }
    let ghost s = chars@;
    let mut acc: u16 = 0;
    let mut i: usize = 0;
    while i < n
        invariant
            s == chars@,
            n == chars.len(),
            1 <= n <= 4,
            i <= n,
            all_hex_digits(s.take(i as int)),
            acc == hex_value(s.take(i as int)),
            i == 0 ==> acc == 0,
            i == 1 ==> acc < 16,
            i == 2 ==> acc < 256,
            i == 3 ==> acc < 4096,
        decreases n - i,
    {
        let c = chars[i];
        let d: u16 = if c >= '0' && c <= '9' {
            (c as u32 - '0' as u32) as u16
        } else if c >= 'a' && c <= 'f' {
            (c as u32 - 'a' as u32 + 10) as u16
        } else if c >= 'A' && c <= 'F' {
            (c as u32 - 'A' as u32 + 10) as u16
        } else {
            return None;
        };
        proof {
            assert(s.take(i + 1).drop_last() =~= s.take(i as int));
        }
        acc = acc * 16 + d;
        i += 1;
    }
    assert(s.take(n as int) =~= s);
    Some(acc)
}

/// Reads `chars` as an IPv4 literal.
pub fn parse_ipv4(chars: &[char]) -> (addr: Option<Ipv4Addr>)
    ensures
        addr == ipv4_literal(chars@),
{
    let bounds = split_bounds(chars, '.');
    let ghost parts = split(chars@, '.');
    if bounds.len() != 4 {
        return None;
    }
    let mut octets: Vec<u8> = Vec::new();
    let mut k: usize = 0;
    while k < 4
        invariant
            k <= 4,
            bounds.len() == 4,
            bounds_within(bounds@, chars@.len()),
            fields_at(chars@, bounds@) == parts,
            parts == split(chars@, '.'),
            octets.len() == k,
            forall|j: int| 0 <= j < k ==> (#[trigger] dec_octet(parts[j])) == Some(octets@[j]),
        decreases 4 - k,
    {
        let (from, to) = bounds[k];
        let part = slice_subrange(chars, from, to);
        assert(part@ == parts[k as int]);
        match parse_octet(part) {
            Some(octet) => {
                octets.push(octet);
            },
            None => {
                return None;
            },
        }
        k += 1;
    }
    let addr = Ipv4Addr::new(octets[0], octets[1], octets[2], octets[3]);
    proof {
        let spec_octets = dec_octets(parts)->0;
        assert(spec_octets =~= octets@);
        assert(octets@ =~= seq![octets@[0], octets@[1], octets@[2], octets@[3]]);
    }
    Some(addr)
}

fn colon_bounds(chars: &[char]) -> (bounds: Vec<(usize, usize)>)
    ensures
        bounds_within(bounds@, chars@.len()),
        fields_at(chars@, bounds@) == colon_parts(chars@),
{
    if chars.len() == 0 {
        let bounds: Vec<(usize, usize)> = Vec::new();
        bounds
    } else {
        split_bounds(chars, ':')
    }
}

fn parse_hex_groups(chars: &[char], bounds: &Vec<(usize, usize)>, count: usize) -> (groups:
    Option<Vec<u16>>)
    requires
        bounds_within(bounds@, chars@.len()),
        count <= bounds.len(),
    ensures
        match groups {
            Some(g) => hex_groups(fields_at(chars@, bounds@).take(count as int)) == Some(g@),
            None => hex_groups(fields_at(chars@, bounds@).take(count as int)) is None,
        },
{
    let ghost parts = fields_at(chars@, bounds@).take(count as int);
    let mut groups: Vec<u16> = Vec::new();
    let mut k: usize = 0;
    while k < count
        invariant
            k <= count <= bounds.len(),
            bounds_within(bounds@, chars@.len()),
            parts == fields_at(chars@, bounds@).take(count as int),
            groups.len() == k,
            parts.len() == count,
            forall|j: int| 0 <= j < k ==> (#[trigger] hex_group(parts[j])) == Some(groups@[j]),
        decreases count - k,
    {
        let (from, to) = bounds[k];
        let part = slice_subrange(chars, from, to);
        assert(part@ == parts[k as int]);
        match parse_hex_group(part) {
            Some(group) => {
                groups.push(group);
            },
            None => {
                return None;
            },
        }
        k += 1;
    }
    Some(groups)
}

fn parse_groups_with_quad(chars: &[char]) -> (groups: Option<Vec<u16>>)
    ensures
        match groups {
            Some(g) => groups_with_quad(colon_parts(chars@)) == Some(g@),
            None => groups_with_quad(colon_parts(chars@)) is None,
        },
{
    let bounds = colon_bounds(chars);
    let ghost parts = colon_parts(chars@);
    let n = bounds.len();
    assert(parts.take(n as int) =~= parts);
    if n > 0 {
        let (from, to) = bounds[n - 1];
        let last = slice_subrange(chars, from, to);
        match parse_ipv4(last) {
            Some(quad) => {
                match parse_hex_groups(chars, &bounds, n - 1) {
                    Some(mut groups) => {
                        groups.push((quad.bits / 65536) as u16);
                        groups.push((quad.bits % 65536) as u16);
                        return Some(groups);
                    },
                    None => {
                        return None;
                    },
                }
            },
            None => {},
        }
    }
    parse_hex_groups(chars, &bounds, n)
}

/// The eight groups of which `head` are the first and `tail` the last, with
/// zero groups between them.
fn expand(head: &Vec<u16>, tail: &Vec<u16>) -> (groups: Vec<u16>)
    requires
        head.len() + tail.len() <= 7,
    ensures
        groups@ == head@ + Seq::new((8 - head.len() - tail.len()) as nat, |k: int| 0u16) + tail@,
{
    let zeros = 8 - head.len() - tail.len();
    let mut groups: Vec<u16> = Vec::new();
    let mut k: usize = 0;
    while k < head.len()
        invariant
            k <= head.len(),
            groups@ == head@.take(k as int),
        decreases head.len() - k,
    {
        groups.push(head[k]);
        k += 1;
    }
    assert(head@.take(head.len() as int) =~= head@);
    k = 0;
    while k < zeros
        invariant
            k <= zeros,
            groups@ == head@ + Seq::new(k as nat, |j: int| 0u16),
        decreases zeros - k,
    {
        groups.push(0);
        k += 1;
    }
    k = 0;
    while k < tail.len()
        invariant
            k <= tail.len(),
            groups@ == head@ + Seq::new(zeros as nat, |j: int| 0u16) + tail@.take(k as int),
        decreases tail.len() - k,
    {
        groups.push(tail[k]);
        assert(groups@ =~= head@ + Seq::new(zeros as nat, |j: int| 0u16) + tail@.take(k + 1));
        k += 1;
    }
    groups
}

/// Reads `chars` as an IPv6 literal.
pub fn parse_ipv6(chars: &[char]) -> (addr: Option<Ipv6Addr>)
    ensures
        addr == ipv6_literal(chars@),
{
    let sep: Vec<char> = vec![':', ':'];
    let groups: Vec<u16> = match find(chars, sep.as_slice()) {
        Some(i) => {
            assert(i + 2 <= chars.len());
            let head_chars = slice_subrange(chars, 0, i);
            let tail_chars = slice_subrange(chars, i + 2, chars.len());
            let head_bounds = colon_bounds(head_chars);
            assert(fields_at(head_chars@, head_bounds@).take(head_bounds.len() as int)
                =~= colon_parts(head_chars@));
            let head = match parse_hex_groups(head_chars, &head_bounds, head_bounds.len()) {
                Some(head) => head,
                None => {
                    return None;
                },
            };
            let tail = match parse_groups_with_quad(tail_chars) {
                Some(tail) => tail,
                None => {
                    return None;
                },
            };
            if head.len() > 7 || tail.len() > 7 - head.len() {
                return None;
            }
            let groups = expand(&head, &tail);
            groups
        },
        None => {
            match parse_groups_with_quad(chars) {
                Some(groups) => {
                    if groups.len() != 8 {
                        return None;
                    }
                    groups
                },
                None => {
                    return None;
                },
            }
        },
    };
    let array: [u16; 8] = [
        groups[0],
        groups[1],
        groups[2],
        groups[3],
        groups[4],
        groups[5],
        groups[6],
        groups[7],
    ];
    assert(array@ =~= groups@);
    Some(Ipv6Addr::new(array))
}

/// Reads `chars` as an address literal of either family.
pub fn parse_ip(chars: &[char]) -> (addr: Option<IpAddr>)
    ensures
        addr == ip_literal(chars@),
{
    match parse_ipv4(chars) {
        Some(addr) => Some(IpAddr::V4(addr)),
        None => match parse_ipv6(chars) {
            Some(addr) => Some(IpAddr::V6(addr)),
            None => None,
        },
    }
}

} // verus!
