//! The kernel socket-table and interface-counter formats.
//!
//! Socket tables come as text: a header line, then whitespace-separated
//! records whose address fields are hexadecimal with the IP octets in
//! little-endian order and the port in big-endian order. Interface counters
//! are one decimal integer per reading. Everything here is a pure function
//! from text to values; reading the files is the caller's business.

use vstd::prelude::*;
use crate::net::{Endpoint, IpAddress};
use crate::text::{spec_decimal, decimal_string};

verus! {

/// The kernel TCP socket states, with an escape hatch for a value outside
/// the documented range.
#[derive(Clone, Copy, Debug, PartialEq, Eq, Structural)]
pub enum TcpState {
    Established,
    SynSent,
    SynRecv,
    FinWait1,
    FinWait2,
    TimeWait,
    Close,
    CloseWait,
    LastAck,
    Listen,
    Closing,
    Unknown(u8),
}

/// The TCP state encoded by a kernel state byte.
pub open spec fn spec_tcp_state(v: u8) -> TcpState {
    if v == 0x01 {
        TcpState::Established
    } else if v == 0x02 {
        TcpState::SynSent
    } else if v == 0x03 {
        TcpState::SynRecv
    } else if v == 0x04 {
        TcpState::FinWait1
    } else if v == 0x05 {
        TcpState::FinWait2
    } else if v == 0x06 {
        TcpState::TimeWait
    } else if v == 0x07 {
        TcpState::Close
    } else if v == 0x08 {
        TcpState::CloseWait
    } else if v == 0x09 {
        TcpState::LastAck
    } else if v == 0x0A {
        TcpState::Listen
    } else if v == 0x0B {
        TcpState::Closing
    } else {
        TcpState::Unknown(v)
    }
}

/// Decode a kernel state byte.
pub fn parse_tcp_state(state: u8) -> (r: TcpState)
    ensures
        r == spec_tcp_state(state),
{
    if state == 0x01 {
        TcpState::Established
    } else if state == 0x02 {
        TcpState::SynSent
    } else if state == 0x03 {
        TcpState::SynRecv
    } else if state == 0x04 {
        TcpState::FinWait1
    } else if state == 0x05 {
        TcpState::FinWait2
    } else if state == 0x06 {
        TcpState::TimeWait
    } else if state == 0x07 {
        TcpState::Close
    } else if state == 0x08 {
        TcpState::CloseWait
    } else if state == 0x09 {
        TcpState::LastAck
    } else if state == 0x0A {
        TcpState::Listen
    } else if state == 0x0B {
        TcpState::Closing
    } else {
        TcpState::Unknown(state)
    }
}

/// The display name of a TCP state.
pub open spec fn spec_tcp_state_name(s: TcpState) -> Seq<char> {
    match s {
        TcpState::Established => "ESTABLISHED"@,
        TcpState::SynSent => "SYN_SENT"@,
        TcpState::SynRecv => "SYN_RECV"@,
        TcpState::FinWait1 => "FIN_WAIT1"@,
        TcpState::FinWait2 => "FIN_WAIT2"@,
        TcpState::TimeWait => "TIME_WAIT"@,
        TcpState::Close => "CLOSE"@,
        TcpState::CloseWait => "CLOSE_WAIT"@,
        TcpState::LastAck => "LAST_ACK"@,
        TcpState::Listen => "LISTEN"@,
        TcpState::Closing => "CLOSING"@,
        TcpState::Unknown(v) => "UNKNOWN("@ + spec_decimal(v as int) + ")"@,
    }
}

impl TcpState {
    /// The display name, with an unknown state byte written in decimal.
    pub fn display_name(&self) -> (r: String)
        ensures
            r@ == spec_tcp_state_name(*self),
    {
        match self {
            TcpState::Established => "ESTABLISHED".to_owned(),
            TcpState::SynSent => "SYN_SENT".to_owned(),
            TcpState::SynRecv => "SYN_RECV".to_owned(),
            TcpState::FinWait1 => "FIN_WAIT1".to_owned(),
            TcpState::FinWait2 => "FIN_WAIT2".to_owned(),
            TcpState::TimeWait => "TIME_WAIT".to_owned(),
            TcpState::Close => "CLOSE".to_owned(),
            TcpState::CloseWait => "CLOSE_WAIT".to_owned(),
            TcpState::LastAck => "LAST_ACK".to_owned(),
            TcpState::Listen => "LISTEN".to_owned(),
            TcpState::Closing => "CLOSING".to_owned(),
            TcpState::Unknown(v) => "UNKNOWN(".to_owned().concat(
                decimal_string(*v as u64).as_str(),
            ).concat(")"),
        }
    }
}

/// One socket-table entry: both endpoints, the state, and the owning
/// inode and user.
#[derive(Clone, Copy, Debug, PartialEq, Eq, Structural)]
pub struct ProcConnection {
    pub local_addr: Endpoint,
    pub remote_addr: Endpoint,
    pub state: TcpState,
    pub inode: u64,
    pub uid: u32,
}

/// Raw per-interface counters as the kernel exposes them.
#[derive(Clone, Debug)]
pub struct InterfaceStats {
    pub interface: String,
    pub rx_bytes: u64,
    pub tx_bytes: u64,
    pub rx_packets: u64,
    pub tx_packets: u64,
    pub rx_errors: u64,
    pub tx_errors: u64,
    pub rx_dropped: u64,
    pub tx_dropped: u64,
}

/// The numeric value of a character as a digit, or -1 where it is none:
/// decimal digits and both cases of the first six letters.
pub open spec fn spec_char_val(c: char) -> int {
    if c == '0' {
        0
    } else if c == '1' {
        1
    } else if c == '2' {
        2
    } else if c == '3' {
        3
    } else if c == '4' {
        4
    } else if c == '5' {
        5
    } else if c == '6' {
        6
    } else if c == '7' {
        7
    } else if c == '8' {
        8
    } else if c == '9' {
        9
    } else if c == 'a' || c == 'A' {
        10
    } else if c == 'b' || c == 'B' {
        11
    } else if c == 'c' || c == 'C' {
        12
    } else if c == 'd' || c == 'D' {
        13
    } else if c == 'e' || c == 'E' {
        14
    } else if c == 'f' || c == 'F' {
        15
    } else {
        -1
    }
}

/// The digit value of a character, or -1 where it is none.
pub fn char_val(c: char) -> (r: i8)
    ensures
        r == spec_char_val(c),
{
    match c {
        '0' => 0,
        '1' => 1,
        '2' => 2,
        '3' => 3,
        '4' => 4,
        '5' => 5,
        '6' => 6,
        '7' => 7,
        '8' => 8,
        '9' => 9,
        'a' => 10,
        'A' => 10,
        'b' => 11,
        'B' => 11,
        'c' => 12,
        'C' => 12,
        'd' => 13,
        'D' => 13,
        'e' => 14,
        'E' => 14,
        'f' => 15,
        'F' => 15,
        _ => -1,
    }
}

/// Whether every character of the sequence is a digit of the base.
pub open spec fn spec_all_digits(s: Seq<char>, base: int) -> bool {
    forall|i: int| 0 <= i < s.len() ==> 0 <= #[trigger] spec_char_val(s[i]) < base
}

/// The numeric value of a digit sequence in the base, most significant
/// digit first.
pub open spec fn spec_radix_value(s: Seq<char>, base: int) -> int
    decreases s.len(),
{
    if s.len() == 0 {
        0
    } else {
        spec_radix_value(s.drop_last(), base) * base + spec_char_val(s.last())
    }
}

/// Once a prefix of digits exceeds a bound, any extension in a base of at
/// least two stays above it.
proof fn lemma_radix_value_grows(s: Seq<char>, k: int, bound: int, base: int)
    requires
        0 <= k <= s.len(),
        base >= 2,
        bound >= 1,
        spec_radix_value(s.subrange(0, k), base) > bound,
        forall|i: int| 0 <= i < s.len() ==> spec_char_val(s[i]) >= -1,
    ensures
        spec_radix_value(s.subrange(0, s.len() as int), base) > bound,
    decreases s.len() - k,
{
    if k < s.len() {
        let t = s.subrange(0, k + 1);
        assert(t.drop_last() =~= s.subrange(0, k));
        let v = spec_radix_value(s.subrange(0, k), base);
        assert(spec_radix_value(t, base) == v * base + spec_char_val(s[k]));
        assert(v * base >= v * 2) by (nonlinear_arith)
            requires
                base >= 2,
                v >= 1,
        ;
        lemma_radix_value_grows(s, k + 1, bound, base);
    } else {
        assert(s.subrange(0, s.len() as int) =~= s.subrange(0, k));
    }
}

/// Parse a digit sequence of a string in the given base, returning its
/// value where every character is a digit of the base, the sequence is not
/// empty, and the value stays within the bound.
pub fn parse_radix(s: &str, from: usize, to: usize, base: u64, bound: u64) -> (r: Option<u64>)
    requires
        from <= to <= s@.len(),
        2 <= base <= 16,
        bound >= 1,
    ensures
        ({
            let part = s@.subrange(from as int, to as int);
            match r {
                Some(v) => {
                    &&& to > from
                    &&& spec_all_digits(part, base as int)
                    &&& v == spec_radix_value(part, base as int)
                    &&& v <= bound
                },
                None => {
                    ||| to == from
                    ||| !spec_all_digits(part, base as int)
                    ||| spec_radix_value(part, base as int) > bound
                },
            }
        }),
{
    if to == from {
        return None;
    }
    let ghost part = s@.subrange(from as int, to as int);
    let mut acc: u64 = 0;
    let mut i: usize = from;
    while i < to
        invariant
            from <= i <= to <= s@.len(),
            2 <= base <= 16,
            bound >= 1,
            part == s@.subrange(from as int, to as int),
            acc == spec_radix_value(part.subrange(0, i - from), base as int),
            acc <= bound,
            spec_all_digits(part.subrange(0, i - from), base as int),
        decreases to - i,
    {
        let c = s.get_char(i);
        let d = char_val(c);
        assert(part[i - from] == s@[i as int]);
        if d < 0 || d as u64 >= base {
            return None;
        }
        proof {
            assert(acc as int * base as int <= 0xFFFFFFFFFFFFFFFF * 16) by (nonlinear_arith)
                requires
                    0 <= acc as int <= 0xFFFFFFFFFFFFFFFF,
                    0 <= base as int <= 16,
            ;
        }
        let next_wide: u128 = (acc as u128) * (base as u128) + (d as u128);
        proof {
            let pre = part.subrange(0, i - from);
            let cur = part.subrange(0, i + 1 - from);
            assert(cur.drop_last() =~= pre);
            assert(cur.last() == s@[i as int]);
            assert(spec_radix_value(cur, base as int) == acc * base + spec_char_val(c));
        }
        if next_wide > bound as u128 {
            proof {
                let cur = part.subrange(0, i + 1 - from);
                assert(spec_radix_value(cur, base as int) > bound);
                assert forall|j: int| 0 <= j < part.len() implies spec_char_val(part[j])
                    >= -1 by {
                    let c2 = part[j];
                    assert(spec_char_val(c2) >= -1);
                }
                lemma_radix_value_grows(part, i + 1 - from, bound as int, base as int);
                assert(part.subrange(0, part.len() as int) =~= part);
            }
            return None;
        }
        acc = next_wide as u64;
        i = i + 1;
        proof {
            let pre = part.subrange(0, i - 1 - from);
            let cur = part.subrange(0, i - from);
            assert(cur.drop_last() =~= pre);
        }
    }
    proof {
        assert(part.subrange(0, to - from) =~= part);
    }
    Some(acc)
}

/// The whitespace characters of the table format.
pub open spec fn spec_is_space(c: char) -> bool {
    c == ' ' || c == '\t' || c == '\r' || c == '\n'
}

/// Whether a character is table whitespace.
pub fn is_space_char(c: char) -> (r: bool)
    ensures
        r == spec_is_space(c),
{
    c == ' ' || c == '\t' || c == '\r' || c == '\n'
}

/// The index of the first occurrence of a character at or after an index,
/// or the length where there is none.
pub open spec fn spec_find_char(s: Seq<char>, i: int, c: char) -> int
    decreases s.len() - i,
    when 0 <= i <= s.len()
{
    if i >= s.len() || s[i] == c {
        i
    } else {
        spec_find_char(s, i + 1, c)
    }
}

/// The found index lies between the start and the length, and everything
/// before it differs from the sought character; at the found index stands
/// the character, unless the scan ran to the end.
pub proof fn lemma_find_char_bounds(s: Seq<char>, i: int, c: char)
    requires
        0 <= i <= s.len(),
    ensures
        i <= spec_find_char(s, i, c) <= s.len(),
        forall|j: int| i <= j < spec_find_char(s, i, c) ==> s[j] != c,
        spec_find_char(s, i, c) < s.len() ==> s[spec_find_char(s, i, c)] == c,
    decreases s.len() - i,
{
    if i < s.len() && s[i] != c {
        lemma_find_char_bounds(s, i + 1, c);
    }
}

/// A forward scan that saw no occurrence before an index, and the
/// character or the end at it, has found the first occurrence.
proof fn lemma_find_char_scan(s: Seq<char>, i: int, e: int, c: char)
    requires
        0 <= i <= e <= s.len(),
        forall|j: int| i <= j < e ==> s[j] != c,
        e == s.len() || s[e] == c,
    ensures
        spec_find_char(s, i, c) == e,
    decreases e - i,
{
    if i < e {
        lemma_find_char_scan(s, i + 1, e, c);
    }
}

/// Find the first occurrence of a character at or after an index, or the
/// string length where there is none.
pub fn find_char(s: &str, from: usize, c: char) -> (r: usize)
    requires
        from <= s@.len(),
    ensures
        r == spec_find_char(s@, from as int, c),
        from <= r <= s@.len(),
{
    let n = s.unicode_len();
    let mut i: usize = from;
    while i < n && s.get_char(i) != c
        invariant
            from <= i <= n == s@.len(),
            forall|j: int| from <= j < i ==> s@[j] != c,
        decreases n - i,
    {
        i = i + 1;
    }
    proof {
        lemma_find_char_scan(s@, from as int, i as int, c);
    }
    i
}

/// The end of the whitespace-free run beginning at an index: the first
/// whitespace position at or after it, or the length.
pub open spec fn spec_token_end(s: Seq<char>, i: int) -> int
    decreases s.len() - i,
    when 0 <= i <= s.len()
{
    if i >= s.len() || spec_is_space(s[i]) {
        i
    } else {
        spec_token_end(s, i + 1)
    }
}

/// The token end lies between the start and the length.
pub proof fn lemma_token_end_bounds(s: Seq<char>, i: int)
    requires
        0 <= i <= s.len(),
    ensures
        i <= spec_token_end(s, i) <= s.len(),
    decreases s.len() - i,
{
    if i < s.len() && !spec_is_space(s[i]) {
        lemma_token_end_bounds(s, i + 1);
    }
}

/// A forward scan that saw no whitespace before an index, and whitespace
/// or the end at it, has found the token end.
proof fn lemma_token_end_scan(s: Seq<char>, i: int, e: int)
    requires
        0 <= i <= e <= s.len(),
        forall|j: int| i <= j < e ==> !spec_is_space(s[j]),
        e == s.len() || spec_is_space(s[e]),
    ensures
        spec_token_end(s, i) == e,
    decreases e - i,
{
    if i < e {
        lemma_token_end_scan(s, i + 1, e);
    }
}

/// The whitespace-separated tokens of the suffix beginning at an index.
pub open spec fn spec_tokens_from(s: Seq<char>, i: int) -> Seq<Seq<char>>
    decreases s.len() - i,
    when 0 <= i <= s.len()
    via spec_tokens_from_decreases
{
    if i >= s.len() {
        Seq::empty()
    } else if spec_is_space(s[i]) {
        spec_tokens_from(s, i + 1)
    } else {
        seq![s.subrange(i, spec_token_end(s, i))] + spec_tokens_from(s, spec_token_end(s, i))
    }
}

#[via_fn]
proof fn spec_tokens_from_decreases(s: Seq<char>, i: int) {
    if 0 <= i < s.len() && !spec_is_space(s[i]) {
        lemma_token_end_bounds(s, i + 1);
        assert(spec_token_end(s, i) == spec_token_end(s, i + 1));
    }
}

/// Split a string into its whitespace-separated tokens.
pub fn tokenize(s: &str) -> (r: Vec<String>)
    ensures
        r@.map_values(|t: String| t@) == spec_tokens_from(s@, 0),
{
    let n = s.unicode_len();
    let mut out: Vec<String> = Vec::new();
    let mut i: usize = 0;
    while i < n
        invariant
            0 <= i <= n == s@.len(),
            out@.map_values(|t: String| t@) + spec_tokens_from(s@, i as int) == spec_tokens_from(
                s@,
                0,
            ),
        decreases n - i,
    {
        let c = s.get_char(i);
        if is_space_char(c) {
            i = i + 1;
        } else {
            let mut e: usize = i + 1;
            while e < n && !is_space_char(s.get_char(e))
                invariant
                    i < e <= n == s@.len(),
                    forall|j: int| i < j < e ==> !spec_is_space(s@[j]),
                    !spec_is_space(s@[i as int]),
                decreases n - e,
            {
                e = e + 1;
            }
            proof {
                lemma_token_end_scan(s@, i as int, e as int);
            }
            let tok = s.substring_char(i, e).to_owned();
            let ghost before = out@.map_values(|t: String| t@);
            out.push(tok);
            proof {
                assert(out@.map_values(|t: String| t@) =~= before + seq![
                    s@.subrange(i as int, e as int),
                ]);
                assert(out@.map_values(|t: String| t@) + spec_tokens_from(s@, e as int)
                    =~= before + spec_tokens_from(s@, i as int));
            }
            i = e;
        }
    }
    proof {
        assert(out@.map_values(|t: String| t@) =~= out@.map_values(|t: String| t@)
            + spec_tokens_from(s@, n as int));
    }
    out
}

/// The lines of the suffix beginning at an index, split at newlines, with
/// no entry for a trailing newline.
pub open spec fn spec_lines_from(s: Seq<char>, i: int) -> Seq<Seq<char>>
    decreases s.len() - i,
    when 0 <= i <= s.len()
    via spec_lines_from_decreases
{
    if i >= s.len() {
        Seq::empty()
    } else {
        let e = spec_find_char(s, i, '\n');
        if e >= s.len() {
            seq![s.subrange(i, s.len() as int)]
        } else {
            seq![s.subrange(i, e)] + spec_lines_from(s, e + 1)
        }
    }
}

#[via_fn]
proof fn spec_lines_from_decreases(s: Seq<char>, i: int) {
    if 0 <= i < s.len() {
        lemma_find_char_bounds(s, i, '\n');
    }
}

/// Split a string into its lines.
pub fn split_lines(s: &str) -> (r: Vec<String>)
    ensures
        r@.map_values(|t: String| t@) == spec_lines_from(s@, 0),
{
    let n = s.unicode_len();
    let mut out: Vec<String> = Vec::new();
    let mut i: usize = 0;
    while i < n
        invariant
            0 <= i <= n == s@.len(),
            out@.map_values(|t: String| t@) + spec_lines_from(s@, i as int) == spec_lines_from(
                s@,
                0,
            ),
        decreases n - i,
    {
        let e = find_char(s, i, '\n');
        let line = s.substring_char(i, e).to_owned();
        let ghost before = out@.map_values(|t: String| t@);
        out.push(line);
        proof {
            assert(out@.map_values(|t: String| t@) =~= before + seq![
                s@.subrange(i as int, e as int),
            ]);
            if e >= n {
                assert(s@.subrange(i as int, e as int) =~= s@.subrange(i as int, s@.len() as int));
                assert(out@.map_values(|t: String| t@) + spec_lines_from(s@, n as int)
                    =~= before + spec_lines_from(s@, i as int));
            } else {
                assert(out@.map_values(|t: String| t@) + spec_lines_from(s@, e + 1)
                    =~= before + spec_lines_from(s@, i as int));
            }
        }
        if e >= n {
            i = n;
        } else {
            i = e + 1;
        }
    }
    proof {
        assert(out@.map_values(|t: String| t@) =~= out@.map_values(|t: String| t@)
            + spec_lines_from(s@, n as int));
    }
    out
}

/// Two hex digits encode at most 255.
proof fn lemma_two_hex_le_255(s: Seq<char>)
    requires
        s.len() == 2,
        spec_all_digits(s, 16),
    ensures
        0 <= spec_radix_value(s, 16) <= 255,
{
    reveal_with_fuel(spec_radix_value, 3);
    assert(s.drop_last().drop_last() =~= Seq::<char>::empty());
    assert(s.drop_last().last() == s[0]);
    assert(s.last() == s[1]);
    assert(0 <= spec_char_val(s[0]) < 16);
    assert(0 <= spec_char_val(s[1]) < 16);
    assert(spec_radix_value(s.drop_last(), 16) == spec_radix_value(s.drop_last().drop_last(), 16)
        * 16 + spec_char_val(s.drop_last().last()));
    assert(spec_radix_value(s.drop_last().drop_last(), 16) == 0);
}

/// The numeric value of one little-endian hex-byte position of an
/// eight-character address field: byte `k` is the pair of hex digits at
/// offset `2k`.
pub open spec fn spec_addr_byte(ip: Seq<char>, k: int) -> int {
    spec_radix_value(ip.subrange(2 * k, 2 * k + 2), 16)
}

/// The display-order numeric IPv4 value of an eight-hex-character address
/// field whose bytes are stored in little-endian order: the last byte is
/// the most significant octet.
pub open spec fn spec_le_ipv4(ip: Seq<char>) -> int {
    spec_addr_byte(ip, 3) * 0x1000000 + spec_addr_byte(ip, 2) * 0x10000 + spec_addr_byte(ip, 1)
        * 0x100 + spec_addr_byte(ip, 0)
}

/// A socket-table address field parsed: eight hex characters of IP in
/// little-endian byte order, a colon, and a big-endian hex port of at most
/// sixteen bits. Anything else is nothing.
pub open spec fn spec_parse_address(s: Seq<char>) -> Option<Endpoint> {
    let ci = spec_find_char(s, 0, ':');
    if ci >= s.len() {
        None
    } else if spec_find_char(s, ci + 1, ':') < s.len() {
        None
    } else {
        let ip = s.subrange(0, ci);
        let pt = s.subrange(ci + 1, s.len() as int);
        if ip.len() == 8 && spec_all_digits(ip, 16) && pt.len() >= 1 && spec_all_digits(pt, 16)
            && spec_radix_value(pt, 16) <= 0xFFFF {
            Some(
                Endpoint {
                    ip: IpAddress::V4(spec_le_ipv4(ip) as u32),
                    port: spec_radix_value(pt, 16) as u16,
                },
            )
        } else {
            None
        }
    }
}

/// Parse a socket-table address field into an endpoint.
pub fn parse_address(addr: &str) -> (r: Option<Endpoint>)
    ensures
        r == spec_parse_address(addr@),
{
    let n = addr.unicode_len();
    let ci = find_char(addr, 0, ':');
    if ci >= n {
        return None;
    }
    let second = find_char(addr, ci + 1, ':');
    if second < n {
        return None;
    }
    if ci != 8 {
        proof {
            assert(addr@.subrange(0, ci as int).len() != 8);
        }
        return None;
    }
    let ghost ip = addr@.subrange(0, 8);
    let ghost pt = addr@.subrange(9, n as int);
    let b0 = parse_radix(addr, 0, 2, 16, 255);
    let b1 = parse_radix(addr, 2, 4, 16, 255);
    let b2 = parse_radix(addr, 4, 6, 16, 255);
    let b3 = parse_radix(addr, 6, 8, 16, 255);
    proof {
        assert(ip.subrange(0, 2) =~= addr@.subrange(0, 2));
        assert(ip.subrange(2, 4) =~= addr@.subrange(2, 4));
        assert(ip.subrange(4, 6) =~= addr@.subrange(4, 6));
        assert(ip.subrange(6, 8) =~= addr@.subrange(6, 8));
    }
    match (b0, b1, b2, b3) {
        (Some(v0), Some(v1), Some(v2), Some(v3)) => {
            proof {
                assert forall|i: int| 0 <= i < ip.len() implies 0 <= #[trigger] spec_char_val(
                    ip[i],
                ) < 16 by {
                    let k = i / 2;
                    let sub = ip.subrange(2 * k, 2 * k + 2);
                    assert(spec_all_digits(sub, 16));
                    assert(sub[i - 2 * k] == ip[i]);
                }
            }
            let port = parse_radix(addr, 9, n, 16, 0xFFFF);
            match port {
                Some(p) => {
                    let value: u32 = (v3 as u32) * 0x1000000 + (v2 as u32) * 0x10000 + (v1 as u32)
                        * 0x100 + (v0 as u32);
                    Some(Endpoint { ip: IpAddress::V4(value), port: p as u16 })
                },
                None => {
                    proof {
                        assert(pt =~= addr@.subrange(9, addr@.len() as int));
                    }
                    None
                },
            }
        },
        _ => {
            proof {
                if spec_all_digits(ip, 16) {
                    assert forall|k: int| 0 <= k < 4 implies spec_all_digits(
                        #[trigger] ip.subrange(2 * k, 2 * k + 2),
                        16,
                    ) by {
                        let sub = ip.subrange(2 * k, 2 * k + 2);
                        assert forall|i: int| 0 <= i < sub.len() implies 0
                            <= #[trigger] spec_char_val(sub[i]) < 16 by {
                            assert(sub[i] == ip[2 * k + i]);
                        }
                    }
                    assert(ip.subrange(0, 2) == ip.subrange((2 * 0) as int, (2 * 0 + 2) as int));
                    assert(ip.subrange(2, 4) == ip.subrange((2 * 1) as int, (2 * 1 + 2) as int));
                    assert(ip.subrange(4, 6) == ip.subrange((2 * 2) as int, (2 * 2 + 2) as int));
                    assert(ip.subrange(6, 8) == ip.subrange((2 * 3) as int, (2 * 3 + 2) as int));
                    lemma_two_hex_le_255(addr@.subrange(0, 2));
                    lemma_two_hex_le_255(addr@.subrange(2, 4));
                    lemma_two_hex_le_255(addr@.subrange(4, 6));
                    lemma_two_hex_le_255(addr@.subrange(6, 8));
                }
            }
            None
        },
    }
}

/// A socket-table record parsed from one line: at least ten
/// whitespace-separated fields, with the local address second, the remote
/// address third, the state byte fourth in hexadecimal, the user id eighth
/// and the inode tenth in decimal. A line outside this shape is nothing.
pub open spec fn spec_parse_tcp_line(s: Seq<char>) -> Option<ProcConnection> {
    let toks = spec_tokens_from(s, 0);
    if toks.len() < 10 {
        None
    } else {
        let local = spec_parse_address(toks[1]);
        let remote = spec_parse_address(toks[2]);
        let st = toks[3];
        let uid = toks[7];
        let inode = toks[9];
        if local is Some && remote is Some && st.len() >= 1 && spec_all_digits(st, 16)
            && spec_radix_value(st, 16) <= 0xFF && uid.len() >= 1 && spec_all_digits(uid, 10)
            && spec_radix_value(uid, 10) <= 0xFFFFFFFF && inode.len() >= 1 && spec_all_digits(
            inode,
            10,
        ) && spec_radix_value(inode, 10) <= 0xFFFFFFFFFFFFFFFF {
            Some(
                ProcConnection {
                    local_addr: local.unwrap(),
                    remote_addr: remote.unwrap(),
                    state: spec_tcp_state(spec_radix_value(st, 16) as u8),
                    inode: spec_radix_value(inode, 10) as u64,
                    uid: spec_radix_value(uid, 10) as u32,
                },
            )
        } else {
            None
        }
    }
}

/// Parse one line of a kernel socket table.
pub fn parse_tcp_line(line: &str) -> (r: Option<ProcConnection>)
    ensures
        r == spec_parse_tcp_line(line@),
{
    let toks = tokenize(line);
    if toks.len() < 10 {
        return None;
    }
    let ghost spec_toks = spec_tokens_from(line@, 0);
    proof {
        assert(spec_toks[1] == toks@.map_values(|t: String| t@)[1]);
        assert(spec_toks[2] == toks@.map_values(|t: String| t@)[2]);
        assert(spec_toks[3] == toks@.map_values(|t: String| t@)[3]);
        assert(spec_toks[7] == toks@.map_values(|t: String| t@)[7]);
        assert(spec_toks[9] == toks@.map_values(|t: String| t@)[9]);
    }
    let local = match parse_address(toks[1].as_str()) {
        Some(a) => a,
        None => {
            return None;
        },
    };
    let remote = match parse_address(toks[2].as_str()) {
        Some(a) => a,
        None => {
            return None;
        },
    };
    let st_tok = &toks[3];
    let state_val = match parse_radix(st_tok.as_str(), 0, st_tok.as_str().unicode_len(), 16, 0xFF) {
        Some(v) => v,
        None => {
            proof {
                assert(spec_toks[3].subrange(0, spec_toks[3].len() as int) =~= spec_toks[3]);
            }
            return None;
        },
    };
    let uid_tok = &toks[7];
    let uid_val = match parse_radix(
        uid_tok.as_str(),
        0,
        uid_tok.as_str().unicode_len(),
        10,
        0xFFFFFFFF,
    ) {
        Some(v) => v,
        None => {
            proof {
                assert(spec_toks[7].subrange(0, spec_toks[7].len() as int) =~= spec_toks[7]);
            }
            return None;
        },
    };
    let inode_tok = &toks[9];
    let inode_val = match parse_radix(
        inode_tok.as_str(),
        0,
        inode_tok.as_str().unicode_len(),
        10,
        0xFFFFFFFFFFFFFFFF,
    ) {
        Some(v) => v,
        None => {
            proof {
                assert(spec_toks[9].subrange(0, spec_toks[9].len() as int) =~= spec_toks[9]);
            }
            return None;
        },
    };
    proof {
        assert(spec_toks[3].subrange(0, spec_toks[3].len() as int) =~= spec_toks[3]);
        assert(spec_toks[7].subrange(0, spec_toks[7].len() as int) =~= spec_toks[7]);
        assert(spec_toks[9].subrange(0, spec_toks[9].len() as int) =~= spec_toks[9]);
    }
    Some(
        ProcConnection {
            local_addr: local,
            remote_addr: remote,
            state: parse_tcp_state(state_val as u8),
            inode: inode_val,
            uid: uid_val as u32,
        },
    )
}

/// The records of the lines of a table body, in order, with unparsable
/// lines skipped; a listen-state override replaces every parsed state.
pub open spec fn spec_parse_table_lines(ls: Seq<Seq<char>>, force_listen: bool) -> Seq<
    ProcConnection,
>
    decreases ls.len(),
{
    if ls.len() == 0 {
        Seq::empty()
    } else {
        let rest = spec_parse_table_lines(ls.drop_first(), force_listen);
        match spec_parse_tcp_line(ls.first()) {
            Some(c) => seq![
                if force_listen {
                    ProcConnection { state: TcpState::Listen, ..c }
                } else {
                    c
                },
            ] + rest,
            None => rest,
        }
    }
}

/// The records of a whole socket table: the header line is skipped, each
/// remaining line parsed, and unparsable lines dropped.
pub open spec fn spec_parse_table(s: Seq<char>, force_listen: bool) -> Seq<ProcConnection> {
    let ls = spec_lines_from(s, 0);
    if ls.len() == 0 {
        Seq::empty()
    } else {
        spec_parse_table_lines(ls.drop_first(), force_listen)
    }
}

/// Parse the text of a socket table, skipping the header line and any
/// malformed line; with the listen override every record's state is
/// `Listen`, as datagram sockets carry no connection state.
fn parse_table(content: &str, force_listen: bool) -> (r: Vec<ProcConnection>)
    ensures
        r@ == spec_parse_table(content@, force_listen),
{
    let lines = split_lines(content);
    let mut out: Vec<ProcConnection> = Vec::new();
    if lines.len() == 0 {
        return out;
    }
    let ghost all = spec_lines_from(content@, 0).drop_first();
    let n = lines.len();
    proof {
        assert(all.subrange(0, all.len() as int) =~= all);
    }
    let mut i: usize = 1;
    while i < n
        invariant
            1 <= i <= n == lines@.len(),
            all == spec_lines_from(content@, 0).drop_first(),
            lines@.map_values(|t: String| t@) == spec_lines_from(content@, 0),
            out@ + spec_parse_table_lines(all.subrange(i - 1, all.len() as int), force_listen)
                == spec_parse_table_lines(all, force_listen),
        decreases n - i,
    {
        let ghost rem = all.subrange(i - 1, all.len() as int);
        proof {
            assert(rem.first() == all[i - 1]);
            assert(all[i - 1] == spec_lines_from(content@, 0)[i as int]);
            assert(lines@.map_values(|t: String| t@)[i as int] == lines@[i as int]@);
            assert(rem.drop_first() =~= all.subrange(i as int, all.len() as int));
        }
        match parse_tcp_line(lines[i].as_str()) {
            Some(c) => {
                if force_listen {
                    out.push(ProcConnection { state: TcpState::Listen, ..c });
                } else {
                    out.push(c);
                }
            },
            None => {},
        }
        i = i + 1;
    }
    proof {
        assert(all.subrange(n - 1, all.len() as int) =~= Seq::<Seq<char>>::empty());
        assert(out@ =~= out@ + spec_parse_table_lines(
            all.subrange(n - 1, all.len() as int),
            force_listen,
        ));
    }
    out
}

/// Parse the text of the kernel TCP socket table.
pub fn parse_tcp_table(content: &str) -> (r: Vec<ProcConnection>)
    ensures
        r@ == spec_parse_table(content@, false),
{
    parse_table(content, false)
}

/// Parse the text of the kernel UDP socket table; every record's state is
/// `Listen`.
pub fn parse_udp_table(content: &str) -> (r: Vec<ProcConnection>)
    ensures
        r@ == spec_parse_table(content@, true),
{
    parse_table(content, true)
}

/// The number of leading whitespace characters.
pub open spec fn spec_leading_ws(s: Seq<char>) -> int
    decreases s.len(),
{
    if s.len() == 0 {
        0
    } else if spec_is_space(s[0]) {
        1 + spec_leading_ws(s.drop_first())
    } else {
        0
    }
}

/// The number of trailing whitespace characters.
pub open spec fn spec_trailing_ws(s: Seq<char>) -> int
    decreases s.len(),
{
    if s.len() == 0 {
        0
    } else if spec_is_space(s[s.len() - 1]) {
        1 + spec_trailing_ws(s.drop_last())
    } else {
        0
    }
}

/// The sequence with leading and trailing whitespace removed.
pub open spec fn spec_trim(s: Seq<char>) -> Seq<char> {
    let stripped = s.subrange(spec_leading_ws(s), s.len() as int);
    stripped.subrange(0, stripped.len() - spec_trailing_ws(stripped))
}

/// A scan that saw whitespace up to an index, and then something else, has
/// found the leading whitespace count.
proof fn lemma_leading_ws_scan(s: Seq<char>, k: int)
    requires
        0 <= k <= s.len(),
        forall|j: int| 0 <= j < k ==> spec_is_space(s[j]),
        k == s.len() || !spec_is_space(s[k]),
    ensures
        spec_leading_ws(s) == k,
    decreases k,
{
    if k > 0 {
        let t = s.drop_first();
        assert forall|j: int| 0 <= j < k - 1 implies spec_is_space(t[j]) by {
            assert(t[j] == s[j + 1]);
        }
        if k - 1 < t.len() {
            assert(t[k - 1] == s[k]);
        }
        lemma_leading_ws_scan(t, k - 1);
    }
}

/// A scan that saw whitespace from the end down to an index, and then
/// something else, has found the trailing whitespace count.
proof fn lemma_trailing_ws_scan(s: Seq<char>, k: int)
    requires
        0 <= k <= s.len(),
        forall|j: int| s.len() - k <= j < s.len() ==> spec_is_space(s[j]),
        k == s.len() || !spec_is_space(s[s.len() - k - 1]),
    ensures
        spec_trailing_ws(s) == k,
    decreases k,
{
    if k > 0 {
        let t = s.drop_last();
        assert forall|j: int| t.len() - (k - 1) <= j < t.len() implies spec_is_space(t[j]) by {
            assert(t[j] == s[j]);
        }
        lemma_trailing_ws_scan(t, k - 1);
    }
}

/// A single interface counter reading: decimal digits with any surrounding
/// whitespace, valued within 64 bits. Anything else is nothing.
pub open spec fn spec_parse_counter(s: Seq<char>) -> Option<u64> {
    let t = spec_trim(s);
    if t.len() >= 1 && spec_all_digits(t, 10) && spec_radix_value(t, 10) <= 0xFFFFFFFFFFFFFFFF {
        Some(spec_radix_value(t, 10) as u64)
    } else {
        None
    }
}

/// Parse one counter reading: a decimal integer surrounded by optional
/// whitespace.
pub fn parse_counter(content: &str) -> (r: Option<u64>)
    ensures
        r == spec_parse_counter(content@),
{
    let n = content.unicode_len();
    let mut lead: usize = 0;
    while lead < n && is_space_char(content.get_char(lead))
        invariant
            0 <= lead <= n == content@.len(),
            forall|j: int| 0 <= j < lead ==> spec_is_space(content@[j]),
        decreases n - lead,
    {
        lead = lead + 1;
    }
    proof {
        lemma_leading_ws_scan(content@, lead as int);
    }
    let ghost stripped = content@.subrange(lead as int, n as int);
    let mut trail: usize = 0;
    while trail < n - lead && is_space_char(content.get_char(n - trail - 1))
        invariant
            0 <= trail <= n - lead,
            lead <= n == content@.len(),
            stripped == content@.subrange(lead as int, n as int),
            forall|j: int| n - trail <= j < n ==> spec_is_space(content@[j]),
        decreases n - lead - trail,
    {
        trail = trail + 1;
    }
    proof {
        assert forall|j: int| stripped.len() - trail <= j < stripped.len() implies spec_is_space(
            stripped[j],
        ) by {
            assert(stripped[j] == content@[j + lead]);
        }
        if trail < stripped.len() {
            assert(stripped[stripped.len() - trail - 1] == content@[n - trail - 1]);
        }
        lemma_trailing_ws_scan(stripped, trail as int);
        assert(spec_trim(content@) == stripped.subrange(0, stripped.len() - trail));
        assert(stripped.subrange(0, stripped.len() - trail) =~= content@.subrange(
            lead as int,
            n - trail,
        ));
    }
    parse_radix(content, lead, n - trail, 10, 0xFFFFFFFFFFFFFFFF)
}

/// Lexicographic order on character sequences by code point, shorter
/// prefixes first.
pub open spec fn spec_lex_le(a: Seq<char>, b: Seq<char>) -> bool
    decreases a.len(),
{
    if a.len() == 0 {
        true
    } else if b.len() == 0 {
        false
    } else if (a[0] as u32) < (b[0] as u32) {
        true
    } else if (a[0] as u32) > (b[0] as u32) {
        false
    } else {
        spec_lex_le(a.drop_first(), b.drop_first())
    }
}

/// The lexicographic order is total.
pub proof fn lemma_lex_le_total(a: Seq<char>, b: Seq<char>)
    ensures
        spec_lex_le(a, b) || spec_lex_le(b, a),
    decreases a.len(),
{
    if a.len() > 0 && b.len() > 0 && (a[0] as u32) == (b[0] as u32) {
        lemma_lex_le_total(a.drop_first(), b.drop_first());
    }
}

/// Comparing two sequences that agree on a prefix comes down to comparing
/// what follows the prefix.
proof fn lemma_lex_le_skip(a: Seq<char>, b: Seq<char>, i: int)
    requires
        0 <= i <= a.len(),
        i <= b.len(),
        forall|j: int| 0 <= j < i ==> a[j] == b[j],
    ensures
        spec_lex_le(a, b) == spec_lex_le(a.skip(i), b.skip(i)),
    decreases i,
{
    if i > 0 {
        assert(a.len() > 0 && b.len() > 0 && a[0] == b[0]);
        let a2 = a.drop_first();
        let b2 = b.drop_first();
        assert forall|j: int| 0 <= j < i - 1 implies a2[j] == b2[j] by {
            assert(a2[j] == a[j + 1]);
            assert(b2[j] == b[j + 1]);
        }
        lemma_lex_le_skip(a2, b2, i - 1);
        assert(a2.skip(i - 1) =~= a.skip(i));
        assert(b2.skip(i - 1) =~= b.skip(i));
    } else {
        assert(a.skip(0) =~= a);
        assert(b.skip(0) =~= b);
    }
}

/// Compare two strings in lexicographic order.
pub fn str_le(a: &str, b: &str) -> (r: bool)
    ensures
        r == spec_lex_le(a@, b@),
{
    let an = a.unicode_len();
    let bn = b.unicode_len();
    let mut i: usize = 0;
    while i < an && i < bn
        invariant
            0 <= i <= an == a@.len(),
            i <= bn == b@.len(),
            forall|j: int| 0 <= j < i ==> a@[j] == b@[j],
        decreases an - i,
    {
        let ca = a.get_char(i);
        let cb = b.get_char(i);
        let cau = ca as u32;
        let cbu = cb as u32;
        if cau < cbu {
            proof {
                lemma_lex_le_skip(a@, b@, i as int);
                assert(a@.skip(i as int)[0] == a@[i as int]);
                assert(b@.skip(i as int)[0] == b@[i as int]);
            }
            return true;
        }
        if cau > cbu {
            proof {
                lemma_lex_le_skip(a@, b@, i as int);
                assert(a@.skip(i as int)[0] == a@[i as int]);
                assert(b@.skip(i as int)[0] == b@[i as int]);
            }
            return false;
        }
        proof {
            assert(ca == cb) by {
                assert(ca as u32 == cb as u32);
            }
        }
        i = i + 1;
    }
    proof {
        lemma_lex_le_skip(a@, b@, i as int);
        if an <= bn {
            assert(a@.skip(i as int).len() == 0);
        } else {
            assert(a@.skip(i as int).len() > 0);
            assert(b@.skip(i as int).len() == 0);
        }
    }
    an <= bn
}

/// The subsequence of names that are kept for monitoring, in order.
pub open spec fn spec_kept_views(s: Seq<Seq<char>>) -> Seq<Seq<char>>
    decreases s.len(),
{
    if s.len() == 0 {
        Seq::empty()
    } else if spec_keep_interface(s.last()) {
        spec_kept_views(s.drop_last()).push(s.last())
    } else {
        spec_kept_views(s.drop_last())
    }
}

/// Whether an interface name is kept for monitoring: loopback names and
/// virtual-ethernet names are omitted.
pub open spec fn spec_keep_interface(name: Seq<char>) -> bool {
    &&& !(name.len() >= 2 && name[0] == 'l' && name[1] == 'o')
    &&& !(name.len() >= 4 && name[0] == 'v' && name[1] == 'e' && name[2] == 't' && name[3] == 'h')
}

/// Whether an interface name is kept for monitoring.
pub fn keep_interface(name: &str) -> (r: bool)
    ensures
        r == spec_keep_interface(name@),
{
    let n = name.unicode_len();
    let is_lo = n >= 2 && name.get_char(0) == 'l' && name.get_char(1) == 'o';
    let is_veth = n >= 4 && name.get_char(0) == 'v' && name.get_char(1) == 'e' && name.get_char(2)
        == 't' && name.get_char(3) == 'h';
    !is_lo && !is_veth
}

/// Select the interface names worth monitoring and order them: loopback
/// and virtual-ethernet names are dropped, the rest are sorted
/// lexicographically.
pub fn filter_interfaces(names: &Vec<String>) -> (r: Vec<String>)
    ensures
        forall|i: int| 0 <= i < r@.len() - 1 ==> spec_lex_le(#[trigger] r@[i]@, r@[i + 1]@),
        r@.map_values(|t: String| t@).to_multiset() == spec_kept_views(
            names@.map_values(|t: String| t@),
        ).to_multiset(),
{
    broadcast use vstd::seq_lib::group_to_multiset_ensures;

    let ghost views = names@.map_values(|t: String| t@);
    let n = names.len();
    let mut out: Vec<String> = Vec::new();
    proof {
        assert(views.take(0) =~= Seq::<Seq<char>>::empty());
    }
    let mut i: usize = 0;
    while i < n
        invariant
            0 <= i <= n == names@.len(),
            views == names@.map_values(|t: String| t@),
            forall|k: int| 0 <= k < out@.len() - 1 ==> spec_lex_le(#[trigger] out@[k]@, out@[k + 1]@),
            out@.map_values(|t: String| t@).to_multiset() == spec_kept_views(
                views.take(i as int),
            ).to_multiset(),
        decreases n - i,
    {
        let name = names[i].clone();
        proof {
            assert(name@ == views[i as int]);
            assert(views.take(i + 1).drop_last() =~= views.take(i as int));
            assert(views.take(i + 1).last() == views[i as int]);
        }
        if keep_interface(name.as_str()) {
            let mut pos: usize = 0;
            while pos < out.len() && !str_le(name.as_str(), out[pos].as_str())
                invariant
                    0 <= pos <= out@.len(),
                    forall|k: int| 0 <= k < pos ==> !spec_lex_le(name@, #[trigger] out@[k]@),
                decreases out@.len() - pos,
            {
                pos = pos + 1;
            }
            let ghost before = out@;
            let ghost nv = name@;
            out.insert(pos, name);
            proof {
                before.insert_ensures(pos as int, out@[pos as int]);
                assert(out@ == before.insert(pos as int, out@[pos as int]));
                assert(out@[pos as int]@ == nv);
                assert forall|k: int| 0 <= k < out@.len() - 1 implies spec_lex_le(
                    #[trigger] out@[k]@,
                    out@[k + 1]@,
                ) by {
                    if k + 1 < pos {
                        assert(out@[k] == before[k]);
                        assert(out@[k + 1] == before[k + 1]);
                        assert(spec_lex_le(before[k]@, before[k + 1]@));
                    } else if k + 1 == pos {
                        assert(out@[k] == before[k]);
                        assert(out@[k + 1]@ == nv);
                        assert(!spec_lex_le(nv, before[k]@));
                        lemma_lex_le_total(before[k]@, nv);
                    } else if k == pos {
                        assert(out@[k + 1] == before[k]);
                        assert(out@[k]@ == nv);
                        assert(spec_lex_le(nv, before[k]@));
                    } else {
                        assert(out@[k] == before[k - 1]);
                        assert(out@[k + 1] == before[k]);
                        assert(spec_lex_le(before[k - 1]@, before[k]@));
                    }
                }
                assert(out@.map_values(|t: String| t@) =~= before.map_values(|t: String| t@).insert(
                    pos as int,
                    nv,
                ));
                crate::lemma_insert_to_multiset(before.map_values(|t: String| t@), pos as int, nv);
                assert(spec_kept_views(views.take(i + 1)) =~= spec_kept_views(
                    views.take(i as int),
                ).push(views[i as int]));
                spec_kept_views(views.take(i as int)).to_multiset_ensures();
                assert(spec_kept_views(views.take(i as int)).push(nv).to_multiset()
                    =~= spec_kept_views(views.take(i as int)).to_multiset().insert(nv));
                assert(out@.map_values(|t: String| t@).to_multiset() == before.map_values(
                    |t: String| t@,
                ).to_multiset().insert(nv));
                assert(spec_kept_views(views.take(i + 1)).to_multiset() == spec_kept_views(
                    views.take(i as int),
                ).push(nv).to_multiset());
            }
        } else {
            proof {
                assert(!spec_keep_interface(views[i as int]));
                assert(spec_kept_views(views.take(i + 1)) =~= spec_kept_views(
                    views.take(i as int),
                ));
            }
        }
        i = i + 1;
    }
    proof {
        assert(views.take(n as int) =~= views);
    }
    out
}

} // verus!
