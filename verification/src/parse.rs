//! Number entry: trimming white space and reading decimal or hexadecimal
//! integers the way the standard `from_str_radix` / `parse` accept them (an
//! optional sign, then one or more digits, nothing else, within range).
use vstd::prelude::*;

verus! {

/// The Unicode `White_Space` characters that `str::trim` removes.
pub open spec fn is_ws(c: char) -> bool {
    ('\u{9}' <= c && c <= '\u{d}') || c == ' ' || c == '\u{85}' || c == '\u{a0}' || c == '\u{1680}'
        || ('\u{2000}' <= c && c <= '\u{200a}') || c == '\u{2028}' || c == '\u{2029}' || c == '\u{202f}'
        || c == '\u{205f}' || c == '\u{3000}'
}

fn char_is_ws(c: char) -> (b: bool)
    ensures
        b == is_ws(c),
{
    ('\u{9}' <= c && c <= '\u{d}') || c == ' ' || c == '\u{85}' || c == '\u{a0}' || c == '\u{1680}'
        || ('\u{2000}' <= c && c <= '\u{200a}') || c == '\u{2028}' || c == '\u{2029}' || c == '\u{202f}'
        || c == '\u{205f}' || c == '\u{3000}'
}

/// Index of the first character that is not white space (or the length).
pub open spec fn first_non_ws(s: Seq<char>, i: int) -> int
    decreases s.len() - i,
{
    if i >= s.len() {
        s.len() as int
    } else if is_ws(s[i]) {
        first_non_ws(s, i + 1)
    } else {
        i
    }
}

/// One past the last character that is not white space, at or after `lo`.
pub open spec fn last_non_ws(s: Seq<char>, lo: int, hi: int) -> int
    decreases hi - lo,
{
    if hi <= lo {
        lo
    } else if is_ws(s[hi - 1]) {
        last_non_ws(s, lo, hi - 1)
    } else {
        hi
    }
}

/// `s` without leading and trailing white space (`str::trim`).
pub open spec fn trim(s: Seq<char>) -> Seq<char> {
    let lo = first_non_ws(s, 0);
    s.subrange(lo, last_non_ws(s, lo, s.len() as int))
}

proof fn lemma_first_non_ws_range(s: Seq<char>, i: int)
    requires
        0 <= i <= s.len(),
    ensures
        i <= first_non_ws(s, i) <= s.len(),
    decreases s.len() - i,
{
    if i < s.len() && is_ws(s[i]) {
        lemma_first_non_ws_range(s, i + 1);
    }
}

proof fn lemma_last_non_ws_range(s: Seq<char>, lo: int, hi: int)
    requires
        0 <= lo <= hi <= s.len(),
    ensures
        lo <= last_non_ws(s, lo, hi) <= hi,
    decreases hi - lo,
{
    if hi > lo && is_ws(s[hi - 1]) {
        lemma_last_non_ws_range(s, lo, hi - 1);
    }
}

/// The bounds `[lo, hi)` of `s` with surrounding white space removed.
pub fn trim_bounds(s: &str) -> (b: (usize, usize))
    ensures
        b.0 <= b.1 <= s@.len(),
        s@.subrange(b.0 as int, b.1 as int) == trim(s@),
{
    let n = s.unicode_len();
    let mut lo: usize = 0;
    while lo < n && char_is_ws(s.get_char(lo))
        invariant
            n == s@.len(),
            lo <= n,
            first_non_ws(s@, lo as int) == first_non_ws(s@, 0),
        decreases n - lo,
    {
        lo += 1;
    }
    let mut hi: usize = n;
    proof {
        lemma_last_non_ws_range(s@, lo as int, n as int);
    }
    while hi > lo && char_is_ws(s.get_char(hi - 1))
        invariant
            n == s@.len(),
            lo <= hi <= n,
            last_non_ws(s@, lo as int, hi as int) == last_non_ws(s@, lo as int, n as int),
        decreases hi - lo,
    {
        hi -= 1;
    }
    (lo, hi)
}

/// Value of a digit character in `radix` (10 or 16; both letter cases).
pub open spec fn digit_value(c: char, radix: nat) -> Option<nat> {
    let v: int = if '0' <= c && c <= '9' {
        c as int - '0' as int
    } else if 'a' <= c && c <= 'z' {
        c as int - 'a' as int + 10
    } else if 'A' <= c && c <= 'Z' {
        c as int - 'A' as int + 10
    } else {
        99
    };
    if v < radix { Some(v as nat) } else { None }
}

/// Whether every character of `s` is a digit in `radix`.
pub open spec fn all_digits(s: Seq<char>, radix: nat) -> bool {
    forall|i: int| 0 <= i < s.len() ==> (#[trigger] digit_value(s[i], radix)) is Some
}

/// The value of a digit string, most significant digit first.
pub open spec fn digits_value(s: Seq<char>, radix: nat) -> nat
    decreases s.len(),
{
    if s.len() == 0 {
        0
    } else {
        digits_value(s.drop_last(), radix) * radix + digit_value(s.last(), radix).unwrap()
    }
}

/// An unsigned integer in `radix` no larger than `max`: an optional `+`,
/// then one or more digits.
pub open spec fn parse_unsigned(s: Seq<char>, radix: nat, max: nat) -> Option<nat> {
    let body = if s.len() > 0 && s[0] == '+' { s.drop_first() } else { s };
    if body.len() == 0 || !all_digits(body, radix) || digits_value(body, radix) > max {
        None
    } else {
        Some(digits_value(body, radix))
    }
}

/// A signed integer in `radix` within `[-neg_max, max]`: an optional `+`
/// or `-`, then one or more digits.
pub open spec fn parse_signed(s: Seq<char>, radix: nat, neg_max: nat, max: nat) -> Option<int> {
    if s.len() > 0 && s[0] == '-' {
        let body = s.drop_first();
        if body.len() == 0 || !all_digits(body, radix) || digits_value(body, radix) > neg_max {
            None
        } else {
            Some(-(digits_value(body, radix) as int))
        }
    } else {
        match parse_unsigned(s, radix, max) {
            Some(v) => Some(v as int),
            None => None,
        }
    }
}

pub(crate) fn char_digit(c: char, radix: u32) -> (d: Option<u32>)
    requires
        radix == 10 || radix == 16,
    ensures
        d == match digit_value(c, radix as nat) {
            Some(v) => Some(v as u32),
            None => None,
        },
{
    let v: u32 = if '0' <= c && c <= '9' {
        (c as u32) - ('0' as u32)
    } else if 'a' <= c && c <= 'z' {
        (c as u32) - ('a' as u32) + 10
    } else if 'A' <= c && c <= 'Z' {
        (c as u32) - ('A' as u32) + 10
    } else {
        99
    };
    if v < radix { Some(v) } else { None }
}

proof fn lemma_digits_value_grows(s: Seq<char>, radix: nat)
    requires
        radix >= 2,
        s.len() > 0,
        all_digits(s, radix),
    ensures
        digits_value(s.drop_last(), radix) <= digits_value(s, radix),
{
    let a = digits_value(s.drop_last(), radix);
    assert(a <= a * radix) by (nonlinear_arith) requires radix >= 2;
}

pub(crate) proof fn lemma_digits_value_monotone(s: Seq<char>, k: int, radix: nat)
    requires
        radix >= 2,
        0 <= k <= s.len(),
        all_digits(s, radix),
    ensures
        digits_value(s.take(k), radix) <= digits_value(s, radix),
    decreases s.len() - k,
{
    if k < s.len() {
        lemma_digits_value_monotone(s, k + 1, radix);
        let t = s.take(k + 1);
        assert(t.drop_last() =~= s.take(k));
        assert(all_digits(t, radix)) by {
            assert forall|i: int| 0 <= i < t.len() implies (#[trigger] digit_value(t[i], radix)) is Some by {
                assert(t[i] == s[i]);
            }
        }
        lemma_digits_value_grows(t, radix);
    } else {
        assert(s.take(k) =~= s);
    }
}

/// Reads the digits of `s[lo..hi]` in `radix` (10 or 16), or `None` when the
/// range is empty, holds a non-digit, or its value exceeds `max`.
pub fn parse_digits(s: &str, lo: usize, hi: usize, radix: u32, max: u64) -> (r: Option<u64>)
    requires
        lo <= hi <= s@.len(),
        radix == 10 || radix == 16,
    ensures
        r == (if hi == lo || !all_digits(s@.subrange(lo as int, hi as int), radix as nat)
            || digits_value(s@.subrange(lo as int, hi as int), radix as nat) > max {
            None::<u64>
        } else {
            Some(digits_value(s@.subrange(lo as int, hi as int), radix as nat) as u64)
        }),
{
    let ghost body = s@.subrange(lo as int, hi as int);
    if hi == lo {
        return None;
    }
    let mut acc: u64 = 0;
    let mut i: usize = lo;
    while i < hi
        invariant
            lo <= i <= hi,
            hi <= s@.len(),
            radix == 10 || radix == 16,
            body == s@.subrange(lo as int, hi as int),
            all_digits(body.take(i - lo), radix as nat),
            acc == digits_value(body.take(i - lo), radix as nat),
            acc <= max,
        decreases hi - i,
    {
        let c = s.get_char(i);
        let ghost t = body.take(i + 1 - lo);
        proof {
            assert(t.drop_last() =~= body.take(i - lo));
            assert(t.last() == c);
        }
        match char_digit(c, radix) {
            None => {
                proof {
                    assert(body[i - lo] == c);
                    assert(!(digit_value(body[i - lo], radix as nat) is Some));
                }
                return None;
            },
            Some(d) => {
                proof {
                    assert(all_digits(t, radix as nat)) by {
                        assert forall|j: int| 0 <= j < t.len() implies (#[trigger] digit_value(t[j], radix as nat)) is Some by {
                            if j < t.len() - 1 {
                                assert(t[j] == body.take(i - lo)[j]);
                            }
                        }
                    }
                }
                if d as u64 > max || acc > (max - d as u64) / radix as u64 {
                    proof {
                        if d <= max {
                            assert(acc * radix + d > max) by (nonlinear_arith)
                                requires acc > (max - d) / (radix as int), radix >= 2, d <= max;
                        }
                        if all_digits(body, radix as nat) {
                            lemma_digits_value_monotone(body, i + 1 - lo, radix as nat);
                        }
                    }
                    return None;
                }
                proof {
                    assert(acc * radix + d <= max) by (nonlinear_arith)
                        requires acc <= (max - d) / (radix as int), radix >= 2, d <= max;
                }
                acc = acc * radix as u64 + d as u64;
            },
        }
        i += 1;
    }
    proof {
        assert(body.take(hi - lo) =~= body);
    }
    Some(acc)
}

/// Reads an unsigned integer from `s[lo..hi]`: an optional `+`, then digits
/// in `radix`, at most `max` (`from_str_radix` for an unsigned type).
pub fn parse_unsigned_in(s: &str, lo: usize, hi: usize, radix: u32, max: u64) -> (r: Option<u64>)
    requires
        lo <= hi <= s@.len(),
        radix == 10 || radix == 16,
    ensures
        r == match parse_unsigned(s@.subrange(lo as int, hi as int), radix as nat, max as nat) {
            Some(v) => Some(v as u64),
            None => None,
        },
{
    let ghost t = s@.subrange(lo as int, hi as int);
    if hi > lo && s.get_char(lo) == '+' {
        proof {
            assert(t.drop_first() =~= s@.subrange(lo + 1, hi as int));
        }
        parse_digits(s, lo + 1, hi, radix, max)
    } else {
        parse_digits(s, lo, hi, radix, max)
    }
}

/// The `i64` a parse of `s[lo..hi]` denotes (`str::parse::<i64>`).
pub fn parse_i64_in(s: &str, lo: usize, hi: usize) -> (r: Option<i64>)
    requires
        lo <= hi <= s@.len(),
    ensures
        r == match parse_signed(s@.subrange(lo as int, hi as int), 10, 0x8000_0000_0000_0000, 0x7fff_ffff_ffff_ffff) {
            Some(v) => Some(v as i64),
            None => None,
        },
{
    let ghost t = s@.subrange(lo as int, hi as int);
    if hi > lo && s.get_char(lo) == '-' {
        proof {
            assert(t.drop_first() =~= s@.subrange(lo + 1, hi as int));
        }
        match parse_digits(s, lo + 1, hi, 10, 0x8000_0000_0000_0000) {
            Some(m) => {
                if m == 0x8000_0000_0000_0000 {
                    Some(i64::MIN)
                } else {
                    Some(-(m as i64))
                }
            },
            None => None,
        }
    } else {
        match parse_unsigned_in(s, lo, hi, 10, 0x7fff_ffff_ffff_ffff) {
            Some(v) => Some(v as i64),
            None => None,
        }
    }
}

/// The `i32` a parse of `s[lo..hi]` denotes (`str::parse::<i32>`).
pub fn parse_i32_in(s: &str, lo: usize, hi: usize) -> (r: Option<i32>)
    requires
        lo <= hi <= s@.len(),
    ensures
        r == match parse_signed(s@.subrange(lo as int, hi as int), 10, 0x8000_0000, 0x7fff_ffff) {
            Some(v) => Some(v as i32),
            None => None,
        },
{
    let ghost t = s@.subrange(lo as int, hi as int);
    if hi > lo && s.get_char(lo) == '-' {
        proof {
            assert(t.drop_first() =~= s@.subrange(lo + 1, hi as int));
        }
        match parse_digits(s, lo + 1, hi, 10, 0x8000_0000) {
            Some(m) => Some((0 - (m as i64)) as i32),
            None => None,
        }
    } else {
        match parse_unsigned_in(s, lo, hi, 10, 0x7fff_ffff) {
            Some(v) => Some(v as i32),
            None => None,
        }
    }
}

/// `s` with every leading `0x` removed (`str::trim_start_matches("0x")`).
pub open spec fn strip_0x(s: Seq<char>) -> Seq<char>
    decreases s.len(),
{
    if s.len() >= 2 && s[0] == '0' && s[1] == 'x' {
        strip_0x(s.skip(2))
    } else {
        s
    }
}

/// A typed address: leading `0x`s dropped, white space trimmed, then read
/// as hexadecimal (`usize::from_str_radix(s.trim_start_matches("0x").trim(), 16)`).
pub open spec fn hex_address(s: Seq<char>) -> Option<usize> {
    match parse_unsigned(trim(strip_0x(s)), 16, usize::MAX as nat) {
        Some(v) => Some(v as usize),
        None => None,
    }
}

/// Reads a typed hexadecimal address (see [`hex_address`]).
pub fn parse_hex_address(s: &str) -> (r: Option<usize>)
    ensures
        r == hex_address(s@),
{
    let n = s.unicode_len();
    let mut i: usize = 0;
    proof {
        assert(s@.skip(0) =~= s@);
    }
    while n - i >= 2 && s.get_char(i) == '0' && s.get_char(i + 1) == 'x'
        invariant
            n == s@.len(),
            i <= n,
            strip_0x(s@.skip(i as int)) == strip_0x(s@),
        decreases n - i,
    {
        proof {
            assert(s@.skip(i as int).skip(2) =~= s@.skip(i + 2));
        }
        i += 2;
    }
    proof {
        let rest = s@.skip(i as int);
        assert(strip_0x(rest) == rest);
    }
    // Trim the rest within [i, n).
    let mut lo: usize = i;
    while lo < n && char_is_ws(s.get_char(lo))
        invariant
            n == s@.len(),
            i <= lo <= n,
            first_non_ws(s@.skip(i as int), lo - i) == first_non_ws(s@.skip(i as int), 0),
        decreases n - lo,
    {
        lo += 1;
    }
    let ghost rest = s@.skip(i as int);
    proof {
        assert(lo - i == first_non_ws(rest, 0)) by {
            if lo < n {
                assert(rest[lo - i] == s@[lo as int]);
            }
        }
        lemma_last_non_ws_range(rest, lo - i, rest.len() as int);
    }
    let mut hi: usize = n;
    while hi > lo && char_is_ws(s.get_char(hi - 1))
        invariant
            n == s@.len(),
            i <= lo <= hi <= n,
            rest == s@.skip(i as int),
            last_non_ws(rest, lo - i, hi - i) == last_non_ws(rest, lo - i, n - i),
        decreases hi - lo,
    {
        proof {
            assert(rest[hi - 1 - i] == s@[hi - 1]);
        }
        hi -= 1;
    }
    proof {
        if hi > lo {
            assert(rest[hi - 1 - i] == s@[hi - 1]);
        }
        assert(last_non_ws(rest, lo - i, hi - i) == hi - i);
        assert(trim(rest) =~= s@.subrange(lo as int, hi as int));
    }
    match parse_unsigned_in(s, lo, hi, 16, usize::MAX as u64) {
        Some(v) => Some(v as usize),
        None => None,
    }
}

} // verus!
