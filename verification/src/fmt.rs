//! Number-to-text rendering used by every panel label: decimal, upper-case
//! hexadecimal and binary digits, zero- or space-padded to a minimum width.
use vstd::prelude::*;

verus! {

/// The character for digit `d` (0..=15) in upper-case hexadecimal notation.
pub open spec fn digit_char(d: nat) -> char {
    if d == 0 { '0' }
    else if d == 1 { '1' }
    else if d == 2 { '2' }
    else if d == 3 { '3' }
    else if d == 4 { '4' }
    else if d == 5 { '5' }
    else if d == 6 { '6' }
    else if d == 7 { '7' }
    else if d == 8 { '8' }
    else if d == 9 { '9' }
    else if d == 10 { 'A' }
    else if d == 11 { 'B' }
    else if d == 12 { 'C' }
    else if d == 13 { 'D' }
    else if d == 14 { 'E' }
    else { 'F' }
}

/// The digits of `n` in base `base`, most significant first, without
/// leading zeros (zero itself is the single digit `0`).
pub open spec fn digits(n: nat, base: nat) -> Seq<char>
    recommends 2 <= base <= 16,
    decreases n,
    when base >= 2
{
    if n < base {
        seq![digit_char(n)]
    } else {
        proof { lemma_div_shrinks(n, base); }
        digits(n / base, base).push(digit_char(n % base))
    }
}

pub proof fn lemma_div_shrinks(n: nat, base: nat)
    requires
        base >= 2,
        n >= base,
    ensures
        n / base < n,
        n / base <= n / 2,
{
    assert(n / base < n && n / base <= n / 2) by (nonlinear_arith)
        requires base >= 2, n >= base;
}

/// `s` preceded by enough copies of `c` to make it at least `width` long.
pub open spec fn pad_left(s: Seq<char>, width: nat, c: char) -> Seq<char> {
    if s.len() < width {
        Seq::new((width - s.len()) as nat, |_i: int| c) + s
    } else {
        s
    }
}

/// `s` followed by enough copies of `c` to make it at least `width` long.
pub open spec fn pad_right(s: Seq<char>, width: nat, c: char) -> Seq<char> {
    if s.len() < width {
        s + Seq::new((width - s.len()) as nat, |_i: int| c)
    } else {
        s
    }
}

/// Decimal rendering of a natural number (`{}`).
pub open spec fn dec(n: nat) -> Seq<char> {
    digits(n, 10)
}

/// Decimal rendering of a signed number (`{}`): a leading `-` for negatives.
pub open spec fn dec_signed(v: int) -> Seq<char> {
    if v < 0 { seq!['-'] + digits((-v) as nat, 10) } else { digits(v as nat, 10) }
}

/// Upper-case hexadecimal, zero-padded to `width` (`{:0width$X}`).
pub open spec fn hex(n: nat, width: nat) -> Seq<char> {
    pad_left(digits(n, 16), width, '0')
}

/// Binary, zero-padded to `width` (`{:0width$b}`).
pub open spec fn bin(n: nat, width: nat) -> Seq<char> {
    pad_left(digits(n, 2), width, '0')
}

proof fn lemma_digits_nonempty(n: nat, base: nat)
    requires
        base >= 2,
    ensures
        digits(n, base).len() >= 1,
    decreases n,
{
    if n >= base {
        lemma_div_shrinks(n, base);
        lemma_digits_nonempty(n / base, base);
    }
}

/// The one-character string for a digit value.
fn digit_str(d: u64) -> (s: &'static str)
    requires
        d < 16,
    ensures
        s@ == seq![digit_char(d as nat)],
{
    if d == 0 { proof { reveal_strlit("0"); } "0" }
    else if d == 1 { proof { reveal_strlit("1"); } "1" }
    else if d == 2 { proof { reveal_strlit("2"); } "2" }
    else if d == 3 { proof { reveal_strlit("3"); } "3" }
    else if d == 4 { proof { reveal_strlit("4"); } "4" }
    else if d == 5 { proof { reveal_strlit("5"); } "5" }
    else if d == 6 { proof { reveal_strlit("6"); } "6" }
    else if d == 7 { proof { reveal_strlit("7"); } "7" }
    else if d == 8 { proof { reveal_strlit("8"); } "8" }
    else if d == 9 { proof { reveal_strlit("9"); } "9" }
    else if d == 10 { proof { reveal_strlit("A"); } "A" }
    else if d == 11 { proof { reveal_strlit("B"); } "B" }
    else if d == 12 { proof { reveal_strlit("C"); } "C" }
    else if d == 13 { proof { reveal_strlit("D"); } "D" }
    else if d == 14 { proof { reveal_strlit("E"); } "E" }
    else { proof { reveal_strlit("F"); } "F" }
}

/// Appends the digits of `n` in base `base`.
pub fn push_digits(s: &mut String, n: u64, base: u64)
    requires
        2 <= base <= 16,
    ensures
        final(s)@ == old(s)@ + digits(n as nat, base as nat),
    decreases n,
{
    let ghost pre = s@;
    if n >= base {
        proof { lemma_div_shrinks(n as nat, base as nat); }
        push_digits(s, n / base, base);
        let d = digit_str(n % base);
        s.append(d);
        proof {
            assert(digits(n as nat, base as nat) == digits((n / base) as nat, base as nat).push(
                digit_char((n % base) as nat),
            ));
            assert(s@ =~= pre + digits(n as nat, base as nat));
        }
    } else {
        let d = digit_str(n % base);
        s.append(d);
        proof {
            assert(n % base == n) by (nonlinear_arith)
                requires n < base;
            assert(digits(n as nat, base as nat) == seq![digit_char(n as nat)]);
        }
    }
}

/// Number of digits of `n` in base `base`.
pub fn digit_count(n: u64, base: u64) -> (c: usize)
    requires
        2 <= base <= 16,
    ensures
        c as nat == digits(n as nat, base as nat).len(),
    decreases n,
{
    if n >= base {
        proof {
            lemma_digits_len_bound((n / base) as nat, base as nat);
            lemma_div_shrinks(n as nat, base as nat);
        }
        digit_count(n / base, base) + 1
    } else {
        1
    }
}

proof fn lemma_digits_len_bound(n: nat, base: nat)
    requires
        base >= 2,
        n <= u64::MAX,
    ensures
        digits(n, base).len() <= 64,
{
    assert(p2(64) == 0x1_0000_0000_0000_0000) by {
        reveal_with_fuel(p2, 65);
    }
    lemma_digits_len_p2(n, base, 64);
}

/// Two to the power `k`.
spec fn p2(k: nat) -> nat
    decreases k,
{
    if k == 0 { 1 } else { 2 * p2((k - 1) as nat) }
}

proof fn lemma_digits_len_p2(n: nat, base: nat, k: nat)
    requires
        base >= 2,
        k >= 1,
        n < p2(k),
    ensures
        digits(n, base).len() <= k,
    decreases k,
{
    if n >= base {
        lemma_div_shrinks(n, base);
        assert(k >= 2) by {
            if k == 1 {
                assert(p2(1) == 2 * p2(0));
            }
        }
        lemma_digits_len_p2(n / base, base, (k - 1) as nat);
    }
}

/// Appends `count` copies of the one-character string `c`.
pub fn push_repeat(s: &mut String, c: &str, count: usize)
    requires
        c@.len() == 1,
    ensures
        final(s)@ == old(s)@ + Seq::new(count as nat, |_i: int| c@[0]),
{
    let mut i: usize = 0;
    while i < count
        invariant
            i <= count,
            c@.len() == 1,
            s@ == old(s)@ + Seq::new(i as nat, |_i: int| c@[0]),
        decreases count - i,
    {
        s.append(c);
        i += 1;
        assert(s@ =~= old(s)@ + Seq::new(i as nat, |_i: int| c@[0]));
    }
}

/// Appends `n` in base `base`, left-padded with `pad` to at least `width`.
pub fn push_padded(s: &mut String, n: u64, base: u64, width: usize, pad: &str)
    requires
        2 <= base <= 16,
        pad@.len() == 1,
    ensures
        final(s)@ == old(s)@ + pad_left(digits(n as nat, base as nat), width as nat, pad@[0]),
{
    let len = digit_count(n, base);
    if len < width {
        push_repeat(s, pad, width - len);
    }
    push_digits(s, n, base);
    assert(s@ =~= old(s)@ + pad_left(digits(n as nat, base as nat), width as nat, pad@[0]));
}

/// Appends the decimal rendering of `n` (`{}`).
pub fn push_dec(s: &mut String, n: u64)
    ensures
        final(s)@ == old(s)@ + dec(n as nat),
{
    push_digits(s, n, 10);
}

/// Appends the decimal rendering of a signed value (`{}`).
pub fn push_dec_signed(s: &mut String, v: i64)
    ensures
        final(s)@ == old(s)@ + dec_signed(v as int),
{
    if v < 0 {
        proof { reveal_strlit("-"); }
        s.append("-");
        let m: u64 = (0i128 - v as i128) as u64;
        push_digits(s, m, 10);
        assert(s@ =~= old(s)@ + dec_signed(v as int));
    } else {
        push_digits(s, v as u64, 10);
    }
}

/// Appends upper-case hex digits zero-padded to `width` (`{:0width$X}`).
pub fn push_hex(s: &mut String, n: u64, width: usize)
    ensures
        final(s)@ == old(s)@ + hex(n as nat, width as nat),
{
    proof { reveal_strlit("0"); }
    push_padded(s, n, 16, width, "0");
}

/// Appends binary digits zero-padded to `width` (`{:0width$b}`).
pub fn push_bin(s: &mut String, n: u64, width: usize)
    ensures
        final(s)@ == old(s)@ + bin(n as nat, width as nat),
{
    proof { reveal_strlit("0"); }
    push_padded(s, n, 2, width, "0");
}

/// Appends one character: `String::push`, which the standard library
/// documents as appending the character to the end of the string.
#[verifier::external_body]
pub(crate) fn push_char(s: &mut String, c: char)
    ensures
        final(s)@ == old(s)@.push(c),
{
    s.push(c);
}

/// Appends a literal piece of text.
pub fn push_str(s: &mut String, t: &str)
    ensures
        final(s)@ == old(s)@ + t@,
{
    s.append(t);
}

/// The decimal rendering of `n` as a fresh string.
pub fn dec_string(n: u64) -> (s: String)
    ensures
        s@ == dec(n as nat),
{
    let mut s = String::new();
    push_dec(&mut s, n);
    assert(s@ =~= dec(n as nat));
    s
}

} // verus!
