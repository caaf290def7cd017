//! Bus-window addresses as busmap sidecars write them: a `u32` is written
//! as `0x` and upper-case hex, and read back from a hex string (an optional
//! `0x`/`0X`, white space around it allowed) or a plain number.
use vstd::prelude::*;
use crate::fmt::{digit_char, digits, push_digits, push_str};
use crate::parse::{
    all_digits, char_digit, digit_value, digits_value, first_non_ws, is_ws, last_non_ws, lemma_digits_value_monotone,
    trim, trim_bounds,
};

verus! {

/// Why reading an integer fails, as the standard library reports it.
#[derive(Clone, Copy, PartialEq, Eq, Debug, Structural)]
pub enum IntErrorKind {
    Empty,
    InvalidDigit,
    PosOverflow,
}

/// Reading `s[i..]` in `radix` onto `acc`, one digit at a time, as the
/// standard library does: the first non-digit, or the first digit that
/// takes the value past `max`, decides the error.
pub open spec fn scan_digits(s: Seq<char>, i: int, radix: nat, acc: nat, max: nat) -> Result<nat, IntErrorKind>
    decreases s.len() - i,
{
    if i >= s.len() {
        Ok(acc)
    } else {
        match digit_value(s[i], radix) {
            None => Err(IntErrorKind::InvalidDigit),
            Some(d) => if acc * radix + d > max {
                Err(IntErrorKind::PosOverflow)
            } else {
                scan_digits(s, i + 1, radix, acc * radix + d, max)
            },
        }
    }
}

proof fn lemma_scan_bound(s: Seq<char>, i: int, radix: nat, acc: nat, max: nat)
    requires
        acc <= max,
    ensures
        scan_digits(s, i, radix, acc, max) matches Ok(v) ==> v <= max,
    decreases s.len() - i,
{
    if i < s.len() {
        if let Some(d) = digit_value(s[i], radix) {
            if acc * radix + d <= max {
                lemma_scan_bound(s, i + 1, radix, acc * radix + d, max);
            }
        }
    }
}

/// `from_str_radix` of an unsigned type whose largest value is `max`: empty
/// text, a lone sign, a non-digit or a value past `max` fail; a leading `+`
/// is allowed.
pub open spec fn from_str_radix_spec(s: Seq<char>, radix: nat, max: nat) -> Result<nat, IntErrorKind> {
    if s.len() == 0 {
        Err(IntErrorKind::Empty)
    } else if (s[0] == '+' || s[0] == '-') && s.len() == 1 {
        Err(IntErrorKind::InvalidDigit)
    } else if s[0] == '+' {
        scan_digits(s, 1, radix, 0, max)
    } else {
        scan_digits(s, 0, radix, 0, max)
    }
}

/// Read `s[lo..hi]` as `u64::from_str_radix` does (see [`from_str_radix_spec`]).
pub fn from_str_radix_in(s: &str, lo: usize, hi: usize, radix: u32) -> (r: Result<u64, IntErrorKind>)
    requires
        lo <= hi <= s@.len(),
        radix == 10 || radix == 16,
    ensures
        match from_str_radix_spec(s@.subrange(lo as int, hi as int), radix as nat, u64::MAX as nat) {
            Ok(v) => v <= u64::MAX && r == Ok::<u64, IntErrorKind>(v as u64),
            Err(k) => r == Err::<u64, IntErrorKind>(k),
        },
{
    let ghost t = s@.subrange(lo as int, hi as int);
    if hi == lo {
        return Err(IntErrorKind::Empty);
    }
    let c0 = s.get_char(lo);
    assert(t[0] == c0);
    if (c0 == '+' || c0 == '-') && hi - lo == 1 {
        return Err(IntErrorKind::InvalidDigit);
    }
    let mut i: usize = if c0 == '+' { lo + 1 } else { lo };
    let mut acc: u64 = 0;
    let ghost start = (i - lo) as int;
    proof {
        lemma_scan_bound(t, start, radix as nat, 0, u64::MAX as nat);
    }
    while i < hi
        invariant
            lo <= i <= hi,
            hi <= s@.len(),
            t == s@.subrange(lo as int, hi as int),
            radix == 10 || radix == 16,
            from_str_radix_spec(t, radix as nat, u64::MAX as nat) == scan_digits(t, start, radix as nat, 0, u64::MAX as nat),
            scan_digits(t, start, radix as nat, 0, u64::MAX as nat) matches Ok(v) ==> v <= u64::MAX,
            scan_digits(t, start, radix as nat, 0, u64::MAX as nat) == scan_digits(t, i - lo, radix as nat, acc as nat, u64::MAX as nat),
        decreases hi - i,
    {
        let c = s.get_char(i);
        assert(t[i - lo] == c);
        match char_digit(c, radix) {
            None => {
                return Err(IntErrorKind::InvalidDigit);
            },
            Some(d) => {
                if acc > (u64::MAX - d as u64) / radix as u64 {
                    proof {
                        assert(acc * radix + d > u64::MAX) by (nonlinear_arith)
                            requires acc > (u64::MAX - d) / (radix as int), radix >= 10, d < radix;
                    }
                    return Err(IntErrorKind::PosOverflow);
                }
                proof {
                    assert(acc * radix + d <= u64::MAX) by (nonlinear_arith)
                        requires acc <= (u64::MAX - d) / (radix as int), radix >= 10, d < radix;
                }
                acc = acc * radix as u64 + d as u64;
            },
        }
        i += 1;
    }
    Ok(acc)
}

/// Why a sidecar address does not read.
#[derive(Clone, Copy, PartialEq, Eq, Debug, Structural)]
pub enum HexU32Error {
    /// The text is not a hex number.
    BadHex(IntErrorKind),
    /// The number does not fit in 32 bits.
    ExceedsU32(u64),
}

/// The hex digits of a text address: trimmed, then one `0x` or `0X` dropped.
pub open spec fn hex_body(s: Seq<char>) -> Seq<char> {
    let t = trim(s);
    if t.len() >= 2 && t[0] == '0' && (t[1] == 'x' || t[1] == 'X') { t.skip(2) } else { t }
}

/// A `u64` that must fit in 32 bits.
pub open spec fn fit_u32(v: nat) -> Result<u32, HexU32Error> {
    if v > u32::MAX { Err(HexU32Error::ExceedsU32(v as u64)) } else { Ok(v as u32) }
}

/// A text address (bare strings are hex too).
pub open spec fn hex_u32_spec(s: Seq<char>) -> Result<u32, HexU32Error> {
    match from_str_radix_spec(hex_body(s), 16, u64::MAX as nat) {
        Err(k) => Err(HexU32Error::BadHex(k)),
        Ok(v) => fit_u32(v),
    }
}

/// Read a text address (see [`hex_u32_spec`]).
pub fn parse_hex_u32(s: &str) -> (r: Result<u32, HexU32Error>)
    ensures
        r == hex_u32_spec(s@),
{
    let (lo, hi) = trim_bounds(s);
    let ghost t = s@.subrange(lo as int, hi as int);
    let mut start = lo;
    if hi - lo >= 2 && s.get_char(lo) == '0' && (s.get_char(lo + 1) == 'x' || s.get_char(lo + 1) == 'X') {
        start = lo + 2;
    }
    proof {
        assert(t == trim(s@));
        if hi - lo >= 2 {
            assert(t[0] == s@[lo as int] && t[1] == s@[lo + 1]);
        }
        assert(s@.subrange(start as int, hi as int) =~= hex_body(s@));
    }
    match from_str_radix_in(s, start, hi, 16) {
        Err(k) => Err(HexU32Error::BadHex(k)),
        Ok(v) => number_u32(v),
    }
}

/// A plain-number address, which must fit in 32 bits.
pub fn number_u32(v: u64) -> (r: Result<u32, HexU32Error>)
    ensures
        r == fit_u32(v as nat),
{
    if v > 0xFFFF_FFFF { Err(HexU32Error::ExceedsU32(v)) } else { Ok(v as u32) }
}

/// How a sidecar writes an address: `0x` and upper-case hex, unpadded.
pub fn hex_u32_text(v: u32) -> (s: String)
    ensures
        s@ == hex_u32_text_spec(v),
{
    let mut s = String::new();
    push_str(&mut s, "0x");
    push_digits(&mut s, v as u64, 16);
    s
}

/// The standard library's message for an integer that does not read.
pub open spec fn int_error_text(k: IntErrorKind) -> Seq<char> {
    match k {
        IntErrorKind::Empty => "cannot parse integer from empty string"@,
        IntErrorKind::InvalidDigit => "invalid digit found in string"@,
        IntErrorKind::PosOverflow => "number too large to fit in target type"@,
    }
}

/// The message of an address that does not read: `"bad hex '<text>': <why>"`,
/// or `"0x<hex> exceeds u32"`.
pub open spec fn hex_u32_error_spec(text: Seq<char>, e: HexU32Error) -> Seq<char> {
    match e {
        HexU32Error::BadHex(k) => "bad hex '"@ + text + "': "@ + int_error_text(k),
        HexU32Error::ExceedsU32(v) => "0x"@ + digits(v as nat, 16) + " exceeds u32"@,
    }
}

/// The message of an address that does not read (see [`hex_u32_error_spec`]).
pub fn hex_u32_error_text(text: &str, e: HexU32Error) -> (s: String)
    ensures
        s@ == hex_u32_error_spec(text@, e),
{
    let mut s = String::new();
    match e {
        HexU32Error::BadHex(k) => {
            push_str(&mut s, "bad hex '");
            push_str(&mut s, text);
            push_str(&mut s, "': ");
            match k {
                IntErrorKind::Empty => push_str(&mut s, "cannot parse integer from empty string"),
                IntErrorKind::InvalidDigit => push_str(&mut s, "invalid digit found in string"),
                IntErrorKind::PosOverflow => push_str(&mut s, "number too large to fit in target type"),
            }
        },
        HexU32Error::ExceedsU32(v) => {
            push_str(&mut s, "0x");
            push_digits(&mut s, v, 16);
            push_str(&mut s, " exceeds u32");
        },
    }
    s
}

/// Scanning the digits of a well-formed number from any prefix value onward
/// ends at the number's value.
proof fn lemma_scan_all_digits(s: Seq<char>, i: int, radix: nat, max: nat)
    requires
        radix >= 2,
        0 <= i <= s.len(),
        all_digits(s, radix),
        digits_value(s, radix) <= max,
    ensures
        scan_digits(s, i, radix, digits_value(s.take(i), radix), max) == Ok::<nat, IntErrorKind>(digits_value(s, radix)),
    decreases s.len() - i,
{
    if i == s.len() {
        assert(s.take(i) =~= s);
    } else {
        let t = s.take(i + 1);
        assert(t.drop_last() =~= s.take(i));
        assert(t.last() == s[i]);
        assert(digit_value(s[i], radix) is Some);
        lemma_digits_value_monotone(s, i + 1, radix);
        lemma_scan_all_digits(s, i + 1, radix, max);
    }
}

proof fn lemma_digit_char_value(d: nat)
    requires
        d < 16,
    ensures
        digit_value(digit_char(d), 16) == Some(d),
        !is_ws(digit_char(d)),
        digit_char(d) != '+' && digit_char(d) != '-',
{
    if d < 10 {
        assert(digit_char(d) as int == '0' as int + d) by {
            if d == 0 {} else if d == 1 {} else if d == 2 {} else if d == 3 {} else if d == 4 {}
            else if d == 5 {} else if d == 6 {} else if d == 7 {} else if d == 8 {} else {}
        }
    } else {
        assert(digit_char(d) as int == 'A' as int + d - 10) by {
            if d == 10 {} else if d == 11 {} else if d == 12 {} else if d == 13 {} else if d == 14 {} else {}
        }
    }
}

/// The upper-case hex digits of a number read back as that number.
proof fn lemma_hex_digits_value(n: nat)
    ensures
        all_digits(digits(n, 16), 16),
        digits_value(digits(n, 16), 16) == n,
        digits(n, 16).len() >= 1,
        digits(n, 16)[0] != '+' && digits(n, 16)[0] != '-',
        forall|k: int| 0 <= k < digits(n, 16).len() ==> !is_ws(#[trigger] digits(n, 16)[k]),
    decreases n,
{
    if n < 16 {
        lemma_digit_char_value(n);
        let d = digits(n, 16);
        assert(d == seq![digit_char(n)]);
        assert(d.drop_last() =~= Seq::<char>::empty());
        assert(digits_value(d.drop_last(), 16) == 0);
        assert(d.last() == digit_char(n));
        assert(digits_value(d, 16) == digits_value(d.drop_last(), 16) * 16 + digit_value(d.last(), 16).unwrap());
    } else {
        crate::fmt::lemma_div_shrinks(n, 16);
        lemma_hex_digits_value(n / 16);
        lemma_digit_char_value(n % 16);
        let rest = digits(n / 16, 16);
        let d = digits(n, 16);
        assert(d == rest.push(digit_char(n % 16)));
        assert(d.drop_last() =~= rest);
        assert forall|k: int| 0 <= k < d.len() implies (#[trigger] digit_value(d[k], 16)) is Some by {
            if k < rest.len() {
                assert(d[k] == rest[k]);
            }
        }
        assert forall|k: int| 0 <= k < d.len() implies !is_ws(#[trigger] d[k]) by {
            if k < rest.len() {
                assert(d[k] == rest[k]);
            }
        }
        assert(rest.len() >= 1);
        assert(d[0] == rest[0]);
        assert(d.last() == digit_char(n % 16));
        assert(digits_value(d, 16) == digits_value(rest, 16) * 16 + (n % 16));
        assert((n / 16) * 16 + n % 16 == n) by (nonlinear_arith);
    }
}

/// What a sidecar writes for an address reads back as that address.
pub proof fn lemma_hex_u32_round_trip(v: u32)
    ensures
        hex_u32_spec(hex_u32_text_spec(v)) == Ok::<u32, HexU32Error>(v),
{
    reveal_strlit("0x");
    let d = digits(v as nat, 16);
    let s = hex_u32_text_spec(v);
    lemma_hex_digits_value(v as nat);
    assert(s.len() == d.len() + 2);
    assert(s[0] == '0' && s[1] == 'x');
    assert forall|k: int| 0 <= k < s.len() implies !is_ws(#[trigger] s[k]) by {
        if k >= 2 {
            assert(s[k] == d[k - 2]);
        }
    }
    lemma_trim_unchanged(s);
    assert(hex_body(s) =~= d);
    assert(d.take(0) =~= Seq::<char>::empty());
    lemma_scan_all_digits(d, 0, 16, u64::MAX as nat);
}

/// Text without white space trims to itself.
proof fn lemma_trim_unchanged(s: Seq<char>)
    requires
        s.len() > 0,
        forall|k: int| 0 <= k < s.len() ==> !is_ws(#[trigger] s[k]),
    ensures
        trim(s) == s,
{
    assert(first_non_ws(s, 0) == 0);
    assert(last_non_ws(s, 0, s.len() as int) == s.len());
    assert(s.subrange(0, s.len() as int) =~= s);
}

/// How a sidecar writes an address, as text.
pub open spec fn hex_u32_text_spec(v: u32) -> Seq<char> {
    "0x"@ + digits(v as nat, 16)
}

} // verus!
