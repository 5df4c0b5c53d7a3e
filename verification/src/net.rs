//! Addresses, endpoints and the direction-agnostic pair key.
//!
//! An IP address is held as plain integers: an IPv4 address as its 32-bit
//! numeric value, an IPv6 address as the two 64-bit halves of its 128-bit
//! value. An endpoint couples an address with a port; a pair key is the two
//! endpoints of a connection sorted so that the key does not depend on which
//! side sent the frame.

use vstd::prelude::*;

verus! {

#[derive(Clone, Copy, Debug, PartialEq, Eq, Structural)]
pub enum IpAddress {
    /// The 32-bit numeric value of an IPv4 address, most significant octet first.
    V4(u32),
    /// The high and low 64-bit halves of an IPv6 address.
    V6(u64, u64),
}

impl IpAddress {
    /// Build an IPv4 address from its four dotted-notation octets.
    pub fn v4(a: u8, b: u8, c: u8, d: u8) -> (r: IpAddress)
        ensures
            (r matches IpAddress::V4(v) && v == (a as int) * 0x1000000 + (b as int) * 0x10000 + (
            c as int) * 0x100 + d as int),
    {
        IpAddress::V4(
            (a as u32) * 0x1000000 + (b as u32) * 0x10000 + (c as u32) * 0x100 + (d as u32),
        )
    }

    /// Build an IPv6 address from its eight 16-bit segments.
    pub fn v6(s0: u16, s1: u16, s2: u16, s3: u16, s4: u16, s5: u16, s6: u16, s7: u16) -> (r:
        IpAddress)
        ensures
            (r matches IpAddress::V6(hi, lo) && hi == (s0 as int) * 0x1000000000000 + (s1 as int)
                * 0x100000000 + (s2 as int) * 0x10000 + s3 as int && lo == (s4 as int)
                * 0x1000000000000 + (s5 as int) * 0x100000000 + (s6 as int) * 0x10000
                + s7 as int),
    {
        IpAddress::V6(
            (s0 as u64) * 0x1000000000000 + (s1 as u64) * 0x100000000 + (s2 as u64) * 0x10000 + (
            s3 as u64),
            (s4 as u64) * 0x1000000000000 + (s5 as u64) * 0x100000000 + (s6 as u64) * 0x10000 + (
            s7 as u64),
        )
    }

    /// The first (most significant) 16-bit segment of an IPv6 address.
    pub open spec fn spec_v6_first_segment(hi: u64) -> u64 {
        hi / 0x1000000000000
    }

    /// True of the loopback, private, and IPv4 link-local ranges, and of the
    /// IPv6 loopback, unique-local and link-local ranges: the set that marks
    /// an address as belonging to this host's side for firewall direction.
    pub open spec fn spec_is_local(self) -> bool {
        match self {
            IpAddress::V4(v) => {
                ||| v / 0x1000000 == 127  // 127.0.0.0/8
                ||| v / 0x1000000 == 10  // 10.0.0.0/8
                ||| (v / 0x100000 == 0xAC1)  // 172.16.0.0/12
                ||| (v / 0x10000 == 0xC0A8)  // 192.168.0.0/16
                ||| (v / 0x10000 == 0xA9FE)  // 169.254.0.0/16

            },
            IpAddress::V6(hi, lo) => {
                ||| (hi == 0 && lo == 1)  // ::1
                ||| (Self::spec_v6_first_segment(hi) / 0x200 == 0x7E)  // fc00::/7
                ||| (Self::spec_v6_first_segment(hi) / 0x40 == 0x3FA)  // fe80::/10

            },
        }
    }

    /// Whether the address lies in the host-local set (loopback, RFC 1918,
    /// IPv4 link-local; IPv6 loopback, unique-local, link-local).
    pub fn is_local(&self) -> (r: bool)
        ensures
            r == self.spec_is_local(),
    {
        match self {
            IpAddress::V4(v) => {
                let top: u32 = *v / 0x1000000;
                top == 127 || top == 10 || *v / 0x100000 == 0xAC1 || *v / 0x10000 == 0xC0A8 || *v
                    / 0x10000 == 0xA9FE
            },
            IpAddress::V6(hi, lo) => {
                let seg0: u64 = *hi / 0x1000000000000;
                (*hi == 0 && *lo == 1) || seg0 / 0x200 == 0x7E || seg0 / 0x40 == 0x3FA
            },
        }
    }

    /// An injective ranking of addresses used to order endpoints: IPv4
    /// addresses come before IPv6 addresses, each family by numeric value.
    pub open spec fn spec_rank(self) -> int {
        match self {
            IpAddress::V4(v) => v as int,
            IpAddress::V6(hi, lo) => 0x100000000 + (hi as int) * 0x10000000000000000 + (lo as int),
        }
    }
}

/// One side of a connection: an address and a port.
#[derive(Clone, Copy, Debug, PartialEq, Eq, Structural)]
pub struct Endpoint {
    pub ip: IpAddress,
    pub port: u16,
}

impl Endpoint {
    pub fn new(ip: IpAddress, port: u16) -> (r: Endpoint)
        ensures
            r == (Endpoint { ip, port }),
    {
        Endpoint { ip, port }
    }

    /// The lexical order on endpoints: by address rank, then by port.
    pub open spec fn spec_le(self, other: Endpoint) -> bool {
        ||| self.ip.spec_rank() < other.ip.spec_rank()
        ||| (self.ip.spec_rank() == other.ip.spec_rank() && self.port <= other.port)
    }

    /// Compare two endpoints in lexical order.
    pub fn le(&self, other: &Endpoint) -> (r: bool)
        ensures
            r == self.spec_le(*other),
    {
        match (self.ip, other.ip) {
            (IpAddress::V4(a), IpAddress::V4(b)) => a < b || (a == b && self.port <= other.port),
            (IpAddress::V4(_), IpAddress::V6(_, _)) => true,
            (IpAddress::V6(_, _), IpAddress::V4(_)) => false,
            (IpAddress::V6(ah, al), IpAddress::V6(bh, bl)) => {
                if ah != bh {
                    ah < bh
                } else if al != bl {
                    al < bl
                } else {
                    self.port <= other.port
                }
            },
        }
    }
}

/// The direction-agnostic identifier of a connection or flow: the two
/// endpoints sorted in lexical order, so that swapping source and
/// destination yields the same key.
#[derive(Clone, Copy, Debug, PartialEq, Eq, Structural)]
pub struct PairKey {
    pub first: Endpoint,
    pub second: Endpoint,
}

/// The canonical pair key of two endpoints.
pub open spec fn spec_pair_key(a: Endpoint, b: Endpoint) -> PairKey {
    if a.spec_le(b) {
        PairKey { first: a, second: b }
    } else {
        PairKey { first: b, second: a }
    }
}

/// Compute the canonical pair key of two endpoints.
pub fn pair_key(a: &Endpoint, b: &Endpoint) -> (r: PairKey)
    ensures
        r == spec_pair_key(*a, *b),
        r.first.spec_le(r.second),
{
    proof {
        lemma_endpoint_le_total(*a, *b);
    }
    if a.le(b) {
        PairKey { first: *a, second: *b }
    } else {
        PairKey { first: *b, second: *a }
    }
}

/// The endpoint order is total: of any two endpoints, one is less than or
/// equal to the other.
pub proof fn lemma_endpoint_le_total(a: Endpoint, b: Endpoint)
    ensures
        a.spec_le(b) || b.spec_le(a),
{
}

/// Exactly one pair key is produced for a pair of endpoints, and swapping
/// the two endpoints produces the same key.
pub proof fn lemma_pair_key_symmetric(a: Endpoint, b: Endpoint)
    ensures
        spec_pair_key(a, b) == spec_pair_key(b, a),
{
    if a.spec_le(b) && b.spec_le(a) {
        assert(a.ip.spec_rank() == b.ip.spec_rank());
        assert(a.port == b.port);
        match (a.ip, b.ip) {
            (IpAddress::V4(x), IpAddress::V4(y)) => {
                assert(x == y);
            },
            (IpAddress::V6(xh, xl), IpAddress::V6(yh, yl)) => {
                assert(xh as int * 0x10000000000000000 + xl as int == yh as int
                    * 0x10000000000000000 + yl as int);
                assert(xh == yh && xl == yl) by (nonlinear_arith)
                    requires
                        xh as int * 0x10000000000000000 + xl as int == yh as int
                            * 0x10000000000000000 + yl as int,
                        0 <= xl < 0x10000000000000000,
                        0 <= yl < 0x10000000000000000,
                        0 <= xh,
                        0 <= yh,
                ;
            },
            _ => {},
        }
        assert(a == b);
    }
}

/// A network in prefix notation: the significant bits of the base address
/// together with the prefix length, used to decide whether an address is
/// part of a configured local network.
#[derive(Clone, Copy, Debug, PartialEq, Eq, Structural)]
pub struct Cidr {
    /// The numeric IPv4 base address.
    pub base: u32,
    /// The number of leading significant bits, at most 32.
    pub prefix_len: u8,
}

/// 2 to the given power, as an unbounded natural.
pub open spec fn spec_two_to(n: nat) -> nat
    decreases n,
{
    if n == 0 {
        1
    } else {
        2 * spec_two_to((n - 1) as nat)
    }
}

/// The divisor that drops the host bits of an address under a prefix of the
/// given length: 2 to the power of (32 - prefix_len).
pub open spec fn spec_host_divisor(prefix_len: u8) -> nat
    recommends
        prefix_len <= 32,
{
    spec_two_to((32 - prefix_len) as nat)
}

/// Adding exponents multiplies powers of two.
pub proof fn lemma_two_to_adds(m: nat, k: nat)
    ensures
        spec_two_to(m + k) == spec_two_to(m) * spec_two_to(k),
    decreases k,
{
    if k == 0 {
        assert(spec_two_to(k) == 1);
        assert(m + k == m);
        assert(spec_two_to(m) * 1 == spec_two_to(m)) by (nonlinear_arith);
    } else {
        lemma_two_to_adds(m, (k - 1) as nat);
        let a = spec_two_to(m);
        let b = spec_two_to((k - 1) as nat);
        assert(spec_two_to(m + k) == 2 * (a * b));
        assert(2 * (a * b) == a * (2 * b)) by (nonlinear_arith);
        assert(a * (2 * b) == spec_two_to(m) * spec_two_to(k));
    }
}

/// Powers of two up to the 32nd are positive and fit in 33 bits.
pub proof fn lemma_two_to_bounds(n: nat)
    requires
        n <= 32,
    ensures
        1 <= spec_two_to(n) <= 0x100000000,
{
    lemma_two_to_pos(n);
    lemma_two_to_adds(n, (32 - n) as nat);
    lemma_two_to_pos((32 - n) as nat);
    let a = spec_two_to(n);
    let b = spec_two_to((32 - n) as nat);
    assert(a * b >= a * 1) by (nonlinear_arith)
        requires
            b >= 1,
            a >= 0,
    ;
    lemma_two_to_32();
}

/// The 32nd power of two, written out.
#[verifier::rlimit(50)]
pub proof fn lemma_two_to_32()
    ensures
        spec_two_to(32) == 0x100000000,
{
    reveal_with_fuel(spec_two_to, 33);
}

impl Cidr {
    pub open spec fn wf(self) -> bool {
        self.prefix_len <= 32
    }

    /// Whether the network contains the address: both agree on every bit of
    /// the prefix, that is, dropping the host bits leaves the same value.
    /// IPv6 addresses are never members of an IPv4 network.
    pub open spec fn spec_contains(self, ip: IpAddress) -> bool {
        match ip {
            IpAddress::V4(v) => v as int / spec_host_divisor(self.prefix_len) as int
                == self.base as int / spec_host_divisor(self.prefix_len) as int,
            IpAddress::V6(_, _) => false,
        }
    }

    pub fn new(base: u32, prefix_len: u8) -> (r: Cidr)
        requires
            prefix_len <= 32,
        ensures
            r == (Cidr { base, prefix_len }),
            r.wf(),
    {
        Cidr { base, prefix_len }
    }

    /// Decide membership of an address in this network.
    pub fn contains(&self, ip: &IpAddress) -> (r: bool)
        requires
            self.wf(),
        ensures
            r == self.spec_contains(*ip),
    {
        match ip {
            IpAddress::V4(v) => {
                let d = host_divisor(self.prefix_len);
                (*v as u64) / d == (self.base as u64) / d
            },
            IpAddress::V6(_, _) => false,
        }
    }
}

/// Compute 2 to the power of (32 - prefix_len) as the divisor that drops
/// the host bits.
pub fn host_divisor(prefix_len: u8) -> (r: u64)
    requires
        prefix_len <= 32,
    ensures
        r == spec_host_divisor(prefix_len),
        r >= 1,
{
    let mut r: u64 = 1;
    let mut i: u8 = 32;
    proof {
        lemma_two_to_bounds((32 - prefix_len) as nat);
    }
    while i > prefix_len
        invariant
            prefix_len <= i <= 32,
            r == spec_two_to((32 - i) as nat),
            spec_two_to((32 - prefix_len) as nat) <= 0x100000000,
        decreases i,
    {
        proof {
            lemma_two_to_le((32 - i + 1) as nat, (32 - prefix_len) as nat);
        }
        i = i - 1;
        r = 2 * r;
    }
    r
}

/// Powers of two are monotone in the exponent.
pub proof fn lemma_two_to_le(m: nat, n: nat)
    requires
        m <= n,
    ensures
        spec_two_to(m) <= spec_two_to(n),
    decreases n,
{
    if m < n {
        lemma_two_to_le(m, (n - 1) as nat);
        if n > 0 {
            lemma_two_to_pos((n - 1) as nat);
        }
    }
}

/// Powers of two are positive.
pub proof fn lemma_two_to_pos(n: nat)
    ensures
        spec_two_to(n) >= 1,
    decreases n,
{
    if n > 0 {
        lemma_two_to_pos((n - 1) as nat);
    }
}

/// The dotted-decimal text of an IPv4 numeric value.
pub open spec fn spec_ipv4_str(v: int) -> Seq<char> {
    crate::text::spec_decimal(v / 0x1000000 % 256) + "."@ + crate::text::spec_decimal(
        v / 0x10000 % 256,
    ) + "."@ + crate::text::spec_decimal(v / 0x100 % 256) + "."@ + crate::text::spec_decimal(
        v % 256,
    )
}

/// The text of an IPv6 value: the eight 16-bit groups in lower-case
/// hexadecimal without leading zeroes, separated by colons, without
/// zero-run compression.
pub open spec fn spec_ipv6_str(hi: int, lo: int) -> Seq<char> {
    crate::text::spec_hex(hi / 0x1000000000000 % 0x10000) + ":"@ + crate::text::spec_hex(
        hi / 0x100000000 % 0x10000,
    ) + ":"@ + crate::text::spec_hex(hi / 0x10000 % 0x10000) + ":"@ + crate::text::spec_hex(
        hi % 0x10000,
    ) + ":"@ + crate::text::spec_hex(lo / 0x1000000000000 % 0x10000) + ":"@
        + crate::text::spec_hex(lo / 0x100000000 % 0x10000) + ":"@ + crate::text::spec_hex(
        lo / 0x10000 % 0x10000,
    ) + ":"@ + crate::text::spec_hex(lo % 0x10000)
}

/// The display text of an address.
pub open spec fn spec_ip_str(ip: IpAddress) -> Seq<char> {
    match ip {
        IpAddress::V4(v) => spec_ipv4_str(v as int),
        IpAddress::V6(hi, lo) => spec_ipv6_str(hi as int, lo as int),
    }
}

/// The display text of an endpoint: the address and the port separated by
/// a colon, an IPv6 address in brackets.
pub open spec fn spec_endpoint_str(e: Endpoint) -> Seq<char> {
    match e.ip {
        IpAddress::V4(_) => spec_ip_str(e.ip) + ":"@ + crate::text::spec_decimal(e.port as int),
        IpAddress::V6(_, _) => "["@ + spec_ip_str(e.ip) + "]:"@ + crate::text::spec_decimal(
            e.port as int,
        ),
    }
}

/// Render an address for display.
pub fn ip_string(ip: &IpAddress) -> (r: String)
    ensures
        r@ == spec_ip_str(*ip),
{
    match ip {
        IpAddress::V4(v) => {
            let a = *v / 0x1000000 % 256;
            let b = *v / 0x10000 % 256;
            let c = *v / 0x100 % 256;
            let d = *v % 256;
            crate::text::decimal_string(a as u64).concat(".").concat(
                crate::text::decimal_string(b as u64).as_str(),
            ).concat(".").concat(crate::text::decimal_string(c as u64).as_str()).concat(
                ".",
            ).concat(crate::text::decimal_string(d as u64).as_str())
        },
        IpAddress::V6(hi, lo) => {
            let s0 = *hi / 0x1000000000000 % 0x10000;
            let s1 = *hi / 0x100000000 % 0x10000;
            let s2 = *hi / 0x10000 % 0x10000;
            let s3 = *hi % 0x10000;
            let s4 = *lo / 0x1000000000000 % 0x10000;
            let s5 = *lo / 0x100000000 % 0x10000;
            let s6 = *lo / 0x10000 % 0x10000;
            let s7 = *lo % 0x10000;
            crate::text::hex_string(s0).concat(":").concat(
                crate::text::hex_string(s1).as_str(),
            ).concat(":").concat(crate::text::hex_string(s2).as_str()).concat(":").concat(
                crate::text::hex_string(s3).as_str(),
            ).concat(":").concat(crate::text::hex_string(s4).as_str()).concat(":").concat(
                crate::text::hex_string(s5).as_str(),
            ).concat(":").concat(crate::text::hex_string(s6).as_str()).concat(":").concat(
                crate::text::hex_string(s7).as_str(),
            )
        },
    }
}

/// Render an endpoint for display.
pub fn endpoint_string(e: &Endpoint) -> (r: String)
    ensures
        r@ == spec_endpoint_str(*e),
{
    match e.ip {
        IpAddress::V4(_) => ip_string(&e.ip).concat(":").concat(
            crate::text::decimal_string(e.port as u64).as_str(),
        ),
        IpAddress::V6(_, _) => "[".to_owned().concat(ip_string(&e.ip).as_str()).concat(
            "]:",
        ).concat(crate::text::decimal_string(e.port as u64).as_str()),
    }
}

} // verus!
