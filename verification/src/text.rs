//! Rendering of numbers, sizes, durations and addresses as text.
//!
//! Every rendering function is specified against a spec-level sequence of
//! characters, built from decimal and hexadecimal digit sequences and string
//! literal views.

use vstd::prelude::*;

verus! {

/// The decimal digit character of a value below ten.
pub open spec fn spec_digit(d: int) -> Seq<char> {
    if d == 0 {
        "0"@
    } else if d == 1 {
        "1"@
    } else if d == 2 {
        "2"@
    } else if d == 3 {
        "3"@
    } else if d == 4 {
        "4"@
    } else if d == 5 {
        "5"@
    } else if d == 6 {
        "6"@
    } else if d == 7 {
        "7"@
    } else if d == 8 {
        "8"@
    } else {
        "9"@
    }
}

/// The decimal rendering of a natural number, most significant digit first,
/// without leading zeroes (zero itself is a single digit).
pub open spec fn spec_decimal(n: int) -> Seq<char>
    decreases n,
{
    if n < 10 {
        spec_digit(n)
    } else {
        spec_decimal(n / 10) + spec_digit(n % 10)
    }
}

/// The single-character string of a decimal digit.
pub fn digit_str(d: u64) -> (r: &'static str)
    requires
        d < 10,
    ensures
        r@ == spec_digit(d as int),
{
    if d == 0 {
        "0"
    } else if d == 1 {
        "1"
    } else if d == 2 {
        "2"
    } else if d == 3 {
        "3"
    } else if d == 4 {
        "4"
    } else if d == 5 {
        "5"
    } else if d == 6 {
        "6"
    } else if d == 7 {
        "7"
    } else if d == 8 {
        "8"
    } else {
        "9"
    }
}

/// Render a value in decimal.
pub fn decimal_string(n: u64) -> (r: String)
    ensures
        r@ == spec_decimal(n as int),
    decreases n,
{
    if n < 10 {
        digit_str(n).to_owned()
    } else {
        let prefix = decimal_string(n / 10);
        prefix.concat(digit_str(n % 10))
    }
}

/// The hexadecimal digit character of a value below sixteen, lower case.
pub open spec fn spec_hex_digit(d: int) -> Seq<char> {
    if d < 10 {
        spec_digit(d)
    } else if d == 10 {
        "a"@
    } else if d == 11 {
        "b"@
    } else if d == 12 {
        "c"@
    } else if d == 13 {
        "d"@
    } else if d == 14 {
        "e"@
    } else {
        "f"@
    }
}

/// The hexadecimal rendering of a natural number, lower case, without
/// leading zeroes.
pub open spec fn spec_hex(n: int) -> Seq<char>
    decreases n,
{
    if n < 16 {
        spec_hex_digit(n)
    } else {
        spec_hex(n / 16) + spec_hex_digit(n % 16)
    }
}

/// The single-character string of a hexadecimal digit, lower case.
pub fn hex_digit_str(d: u64) -> (r: &'static str)
    requires
        d < 16,
    ensures
        r@ == spec_hex_digit(d as int),
{
    if d < 10 {
        digit_str(d)
    } else if d == 10 {
        "a"
    } else if d == 11 {
        "b"
    } else if d == 12 {
        "c"
    } else if d == 13 {
        "d"
    } else if d == 14 {
        "e"
    } else {
        "f"
    }
}

/// Render a value in lower-case hexadecimal.
pub fn hex_string(n: u64) -> (r: String)
    ensures
        r@ == spec_hex(n as int),
    decreases n,
{
    if n < 16 {
        hex_digit_str(n).to_owned()
    } else {
        let prefix = hex_string(n / 16);
        prefix.concat(hex_digit_str(n % 16))
    }
}

/// A two-digit decimal rendering of a value below one hundred, zero padded.
pub open spec fn spec_two_digits(n: int) -> Seq<char> {
    spec_digit(n / 10) + spec_digit(n % 10)
}

/// Render a value below one hundred as exactly two digits.
pub fn two_digit_string(n: u64) -> (r: String)
    requires
        n < 100,
    ensures
        r@ == spec_two_digits(n as int),
{
    let s = digit_str(n / 10).to_owned();
    s.concat(digit_str(n % 10))
}

/// A duration in seconds rendered at the two most significant units among
/// days, hours, minutes and seconds.
pub open spec fn spec_format_duration(s: int) -> Seq<char> {
    if s < 60 {
        spec_decimal(s) + "s"@
    } else if s < 3600 {
        spec_decimal(s / 60) + "m "@ + spec_decimal(s % 60) + "s"@
    } else if s < 86400 {
        spec_decimal(s / 3600) + "h "@ + spec_decimal((s % 3600) / 60) + "m"@
    } else {
        spec_decimal(s / 86400) + "d "@ + spec_decimal((s % 86400) / 3600) + "h"@
    }
}

/// Format a duration of seconds as its two most significant units.
pub fn format_duration(seconds: u64) -> (r: String)
    ensures
        r@ == spec_format_duration(seconds as int),
{
    if seconds < 60 {
        decimal_string(seconds).concat("s")
    } else if seconds < 3600 {
        decimal_string(seconds / 60).concat("m ").concat(decimal_string(seconds % 60).as_str())
            .concat("s")
    } else if seconds < 86400 {
        decimal_string(seconds / 3600).concat("h ").concat(
            decimal_string((seconds % 3600) / 60).as_str(),
        ).concat("m")
    } else {
        decimal_string(seconds / 86400).concat("d ").concat(
            decimal_string((seconds % 86400) / 3600).as_str(),
        ).concat("h")
    }
}

/// A quantity scaled down by a unit divisor, rendered with two decimal
/// places (truncated), as whole part, a point, and two fractional digits.
pub open spec fn spec_scaled_hundredths(value: int, divisor: int) -> Seq<char>
    recommends
        divisor >= 1,
{
    let hundredths = value * 100 / divisor;
    spec_decimal(hundredths / 100) + "."@ + spec_two_digits(hundredths % 100)
}

/// The unit suffix of a byte count: the largest power of 1024 at most the
/// value, capped at terabytes.
pub open spec fn spec_byte_unit_index(bytes: int) -> int {
    if bytes < 0x400 {
        0
    } else if bytes < 0x100000 {
        1
    } else if bytes < 0x40000000 {
        2
    } else if bytes < 0x10000000000 {
        3
    } else {
        4
    }
}

/// A byte count in human units: plain bytes below one kibibyte, otherwise
/// scaled by the unit with two decimal places.
pub open spec fn spec_format_bytes(bytes: int) -> Seq<char> {
    let i = spec_byte_unit_index(bytes);
    if i == 0 {
        spec_decimal(bytes) + " B"@
    } else if i == 1 {
        spec_scaled_hundredths(bytes, 0x400) + " KB"@
    } else if i == 2 {
        spec_scaled_hundredths(bytes, 0x100000) + " MB"@
    } else if i == 3 {
        spec_scaled_hundredths(bytes, 0x40000000) + " GB"@
    } else {
        spec_scaled_hundredths(bytes, 0x10000000000) + " TB"@
    }
}

/// Render a scaled quantity with two truncated decimal places.
fn scaled_hundredths(value: u64, divisor: u64) -> (r: String)
    requires
        divisor >= 100,
    ensures
        r@ == spec_scaled_hundredths(value as int, divisor as int),
{
    let wide: u128 = (value as u128) * 100 / (divisor as u128);
    proof {
        assert((value as int) * 100 / (divisor as int) <= value as int) by (nonlinear_arith)
            requires
                divisor as int >= 100,
                value as int >= 0,
        ;
    }
    let hundredths: u64 = wide as u64;
    let whole = decimal_string(hundredths / 100);
    let frac = two_digit_string(hundredths % 100);
    whole.concat(".").concat(frac.as_str())
}

/// Format a byte count in human-readable units from bytes to terabytes.
pub fn format_bytes(bytes: u64) -> (r: String)
    ensures
        r@ == spec_format_bytes(bytes as int),
{
    if bytes < 0x400 {
        decimal_string(bytes).concat(" B")
    } else if bytes < 0x100000 {
        scaled_hundredths(bytes, 0x400).concat(" KB")
    } else if bytes < 0x40000000 {
        scaled_hundredths(bytes, 0x100000).concat(" MB")
    } else if bytes < 0x10000000000 {
        scaled_hundredths(bytes, 0x40000000).concat(" GB")
    } else {
        scaled_hundredths(bytes, 0x10000000000).concat(" TB")
    }
}

/// The unit suffix index of a bit rate: the largest power of 1000 at most
/// the value, capped at terabits.
pub open spec fn spec_rate_unit_index(bits: int) -> int {
    if bits < 1000 {
        0
    } else if bits < 1000000 {
        1
    } else if bits < 1000000000 {
        2
    } else if bits < 1000000000000 {
        3
    } else {
        4
    }
}

/// A byte-per-second rate in bits per second, scaled to human units with
/// two decimal places above the base unit.
pub open spec fn spec_format_bandwidth(bytes_per_sec: int) -> Seq<char> {
    let bits = bytes_per_sec * 8;
    let i = spec_rate_unit_index(bits);
    if i == 0 {
        spec_decimal(bits) + " bps"@
    } else if i == 1 {
        spec_scaled_hundredths(bits, 1000) + " Kbps"@
    } else if i == 2 {
        spec_scaled_hundredths(bits, 1000000) + " Mbps"@
    } else if i == 3 {
        spec_scaled_hundredths(bits, 1000000000) + " Gbps"@
    } else {
        spec_scaled_hundredths(bits, 1000000000000) + " Tbps"@
    }
}

/// Format a rate of bytes per second as bits per second in human units.
pub fn format_bandwidth(bytes_per_sec: u64) -> (r: String)
    requires
        bytes_per_sec <= 0x1FFFFFFFFFFFFFFF,
    ensures
        r@ == spec_format_bandwidth(bytes_per_sec as int),
{
    let bits: u64 = bytes_per_sec * 8;
    if bits < 1000 {
        decimal_string(bits).concat(" bps")
    } else if bits < 1000000 {
        scaled_hundredths(bits, 1000).concat(" Kbps")
    } else if bits < 1000000000 {
        scaled_hundredths(bits, 1000000).concat(" Mbps")
    } else if bits < 1000000000000 {
        scaled_hundredths(bits, 1000000000).concat(" Gbps")
    } else {
        scaled_hundredths(bits, 1000000000000).concat(" Tbps")
    }
}

/// A string cut to a maximum character count, with a three-dot ellipsis
/// marking the cut.
pub open spec fn spec_truncate(s: Seq<char>, max_len: int) -> Seq<char> {
    if s.len() <= max_len {
        s
    } else if max_len <= 3 {
        "..."@
    } else {
        s.subrange(0, max_len - 3) + "..."@
    }
}

/// Truncate a string to at most `max_len` characters, ending in an ellipsis
/// when anything was cut.
pub fn truncate_string(s: &str, max_len: usize) -> (r: String)
    ensures
        r@ == spec_truncate(s@, max_len as int),
{
    let n = s.unicode_len();
    if n <= max_len {
        s.to_owned()
    } else if max_len <= 3 {
        "...".to_owned()
    } else {
        let head = s.substring_char(0, max_len - 3);
        head.to_owned().concat("...")
    }
}

/// The number of leading opening brackets of a character sequence.
pub open spec fn spec_leading_brackets(s: Seq<char>) -> int
    decreases s.len(),
{
    if s.len() == 0 {
        0
    } else if s[0] == '[' {
        1 + spec_leading_brackets(s.drop_first())
    } else {
        0
    }
}

/// The number of trailing closing brackets of a character sequence.
pub open spec fn spec_trailing_brackets(s: Seq<char>) -> int
    decreases s.len(),
{
    if s.len() == 0 {
        0
    } else if s[s.len() - 1] == ']' {
        1 + spec_trailing_brackets(s.drop_last())
    } else {
        0
    }
}

/// Whether a character sequence contains a colon.
pub open spec fn spec_has_colon(s: Seq<char>) -> bool {
    exists|i: int| 0 <= i < s.len() && s[i] == ':'
}

/// A character sequence with every leading opening bracket and every
/// trailing closing bracket removed.
pub open spec fn spec_strip_brackets(s: Seq<char>) -> Seq<char> {
    let stripped = s.subrange(spec_leading_brackets(s), s.len() as int);
    stripped.subrange(0, stripped.len() - spec_trailing_brackets(stripped))
}

/// An address prepared for display: surrounding brackets removed, and a
/// colon-bearing form longer than twenty characters cut to twenty.
pub open spec fn spec_format_ip_address(s: Seq<char>) -> Seq<char> {
    let cleaned = spec_strip_brackets(s);
    if spec_has_colon(cleaned) && cleaned.len() > 20 {
        spec_truncate(cleaned, 20)
    } else {
        cleaned
    }
}

/// A scan that saw opening brackets up to an index, and then something
/// else, has found the leading bracket count.
proof fn lemma_leading_brackets_scan(s: Seq<char>, k: int)
    requires
        0 <= k <= s.len(),
        forall|j: int| 0 <= j < k ==> s[j] == '[',
        k == s.len() || s[k] != '[',
    ensures
        spec_leading_brackets(s) == k,
    decreases k,
{
    if k == 0 {
    } else {
        assert(s[0] == '[');
        let t = s.drop_first();
        assert forall|j: int| 0 <= j < k - 1 implies t[j] == '[' by {
            assert(t[j] == s[j + 1]);
        }
        if k - 1 < t.len() {
            assert(t[k - 1] == s[k]);
        }
        lemma_leading_brackets_scan(t, k - 1);
    }
}

/// A scan that saw closing brackets from the end down to an index, and then
/// something else, has found the trailing bracket count.
proof fn lemma_trailing_brackets_scan(s: Seq<char>, k: int)
    requires
        0 <= k <= s.len(),
        forall|j: int| s.len() - k <= j < s.len() ==> s[j] == ']',
        k == s.len() || s[s.len() - k - 1] != ']',
    ensures
        spec_trailing_brackets(s) == k,
    decreases k,
{
    if k == 0 {
    } else {
        assert(s[s.len() - 1] == ']');
        let t = s.drop_last();
        assert forall|j: int| t.len() - (k - 1) <= j < t.len() implies t[j] == ']' by {
            assert(t[j] == s[j]);
        }
        lemma_trailing_brackets_scan(t, k - 1);
    }
}

/// Count the leading opening brackets of a string.
fn leading_brackets(s: &str) -> (r: usize)
    ensures
        r == spec_leading_brackets(s@),
        r <= s@.len(),
{
    let n = s.unicode_len();
    let mut i: usize = 0;
    while i < n && s.get_char(i) == '['
        invariant
            0 <= i <= n == s@.len(),
            forall|j: int| 0 <= j < i ==> s@[j] == '[',
        decreases n - i,
    {
        i = i + 1;
    }
    proof {
        lemma_leading_brackets_scan(s@, i as int);
    }
    i
}

/// Count the trailing closing brackets of a string.
fn trailing_brackets(s: &str) -> (r: usize)
    ensures
        r == spec_trailing_brackets(s@),
        r <= s@.len(),
{
    let n = s.unicode_len();
    let mut k: usize = 0;
    while k < n && s.get_char(n - k - 1) == ']'
        invariant
            0 <= k <= n == s@.len(),
            forall|j: int| n - k <= j < n ==> s@[j] == ']',
        decreases n - k,
    {
        k = k + 1;
    }
    proof {
        lemma_trailing_brackets_scan(s@, k as int);
    }
    k
}

/// Whether a string contains a colon.
fn has_colon(s: &str) -> (r: bool)
    ensures
        r == spec_has_colon(s@),
{
    let n = s.unicode_len();
    let mut i: usize = 0;
    while i < n
        invariant
            0 <= i <= n == s@.len(),
            forall|j: int| 0 <= j < i ==> s@[j] != ':',
        decreases n - i,
    {
        if s.get_char(i) == ':' {
            return true;
        }
        i = i + 1;
    }
    false
}

/// Prepare an address for display: strip surrounding brackets, and cut a
/// colon-bearing form longer than twenty characters down to twenty.
pub fn format_ip_address(addr: &str) -> (r: String)
    ensures
        r@ == spec_format_ip_address(addr@),
{
    let n = addr.unicode_len();
    let lead = leading_brackets(addr);
    let stripped = addr.substring_char(lead, n);
    let trail = trailing_brackets(stripped);
    let m = stripped.unicode_len();
    let cleaned = stripped.substring_char(0, m - trail);
    if has_colon(cleaned) && cleaned.unicode_len() > 20 {
        truncate_string(cleaned, 20)
    } else {
        cleaned.to_owned()
    }
}

} // verus!
