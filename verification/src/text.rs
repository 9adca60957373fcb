//! Text helpers: decimal digits, lower-casing, and the exact rules by which
//! byte counts are shown.
//!
//! Byte counts are shown with one decimal digit of the count divided by the
//! largest of 1, 1024, 1024² and 1024³ that does not exceed it. The count is
//! first taken as the nearest double (ties to even, as a `u64` to `f64`
//! conversion does), and the decimal digit is rounded half to even, as Rust's
//! fixed-precision float formatting does. All of it is computed here on
//! integers, exactly.
use vstd::prelude::*;

verus! {

/// Largest integer below which every integer is a double.
pub const F64_EXACT: u128 = 0x20_0000_0000_0000;

/// Appends `c` with `String::push`. Trusted: afterwards the string is the
/// old one followed by `c`.
#[verifier::external_body]
pub(crate) fn push_char(s: &mut String, c: char)
    ensures
        final(s)@ == old(s)@.push(c),
{
    s.push(c);
}

/// Removes the last character with `String::pop`. Trusted: on an empty
/// string it returns `None` and changes nothing; otherwise it returns the
/// last character and the string loses it.
#[verifier::external_body]
pub(crate) fn pop_char(s: &mut String) -> (c: Option<char>)
    ensures
        old(s)@.len() == 0 ==> c is None && final(s)@ == old(s)@,
        old(s)@.len() > 0 ==> c == Some(old(s)@.last()) && final(s)@ == old(s)@.drop_last(),
{
    s.pop()
}

/// The lower-case mapping of a string, as `str::to_lowercase` computes it
/// (full Unicode case mapping, independent of locale).
pub uninterp spec fn lowercase(s: Seq<char>) -> Seq<char>;

/// Lower-cases a string with `str::to_lowercase`. Trusted: the result is
/// [`lowercase`] of the input; what that mapping is (Unicode's full
/// lower-case mapping) is left unstated.
#[verifier::external_body]
pub(crate) fn to_lowercase(s: &str) -> (r: String)
    ensures
        r@ == lowercase(s@),
{
    s.to_lowercase()
}

/// The characters of a string, in order.
pub fn chars_of(s: &str) -> (v: Vec<char>)
    ensures
        v@ == s@,
{
    let mut v: Vec<char> = Vec::new();
    for c in it: s.chars()
        invariant
            it.seq() == s@,
            v@ == it.seq().take(it.index() as int),
    {
        v.push(c);
    }
    v
}

/// The character of the decimal digit `d` (`d < 10`).
pub open spec fn digit(d: nat) -> char {
    ((d + 48) as u32) as char
}

/// The decimal representation of `n`, without leading zeros.
pub open spec fn decimal(n: nat) -> Seq<char>
    decreases n,
{
    if n < 10 {
        seq![digit(n)]
    } else {
        decimal(n / 10).push(digit(n % 10))
    }
}

/// `n / d` rounded to the nearest integer, ties to the even one.
pub open spec fn round_half_even(n: nat, d: nat) -> nat
    recommends
        d > 0,
{
    let q = n / d;
    let r = n % d;
    if 2 * r > d || (2 * r == d && q % 2 == 1) {
        (q + 1) as nat
    } else {
        q
    }
}

/// Spacing `u` of the doubles around `x * u`: the step doubles for every
/// binary digit of `x` beyond the 53 that a double holds.
pub open spec fn ulp_from(x: nat, u: nat) -> nat
    decreases x,
{
    if x < F64_EXACT {
        u
    } else {
        ulp_from(x / 2, 2 * u)
    }
}

/// The value of `b` converted to the nearest double (ties to even).
pub open spec fn as_double(b: nat) -> nat {
    let u = ulp_from(b, 1);
    round_half_even(b, u) * u
}

/// Index of the unit of a byte count: 0 = B, 1 = KB, 2 = MB, 3 = GB.
pub open spec fn unit_index(b: nat) -> nat {
    if b < 1024 {
        0
    } else if b < 1024 * 1024 {
        1
    } else if b < 1024 * 1024 * 1024 {
        2
    } else {
        3
    }
}

/// 1024 to the power of a unit index.
pub open spec fn unit_divisor(i: nat) -> nat {
    if i == 0 {
        1
    } else if i == 1 {
        1024
    } else if i == 2 {
        1024 * 1024
    } else {
        1024 * 1024 * 1024
    }
}

/// The name of a unit.
pub open spec fn unit_name(i: nat) -> Seq<char> {
    if i == 0 {
        seq!['B']
    } else if i == 1 {
        seq!['K', 'B']
    } else if i == 2 {
        seq!['M', 'B']
    } else {
        seq!['G', 'B']
    }
}

/// The count in tenths of its unit, as it is shown.
pub open spec fn shown_tenths(b: nat) -> nat {
    round_half_even(as_double(b) * 10, unit_divisor(unit_index(b)))
}

/// A byte count as shown: `"<int>.<digit> <unit>"`, e.g. `"1.5 KB"`.
pub open spec fn human_text(b: nat) -> Seq<char> {
    let t = shown_tenths(b);
    decimal(t / 10) + seq!['.', digit(t % 10), ' '] + unit_name(unit_index(b))
}

/// A count of whole GB as shown with no decimal digit (`"{:.0}"` of GB).
pub open spec fn whole_gb(b: nat) -> nat {
    round_half_even(as_double(b), 1024 * 1024 * 1024)
}

/// The number that a string of decimal digits spells.
pub open spec fn digits_value(s: Seq<char>) -> int
    decreases s.len(),
{
    if s.len() == 0 {
        0
    } else {
        digits_value(s.drop_last()) * 10 + ((s.last() as u32) as int - 48)
    }
}

/// `decimal` writes a number the usual way: only the digits `0` to `9`,
/// no leading zero (but for zero itself, written `0`), and the digits spell
/// the number back.
pub proof fn lemma_decimal_spells(n: nat)
    ensures
        decimal(n).len() > 0,
        forall|i: int| 0 <= i < decimal(n).len() ==> '0' <= #[trigger] decimal(n)[i] <= '9',
        decimal(n)[0] == '0' ==> n == 0,
        digits_value(decimal(n)) == n,
    decreases n,
{
    if n >= 10 {
        lemma_decimal_spells(n / 10);
        let d = (n % 10) as nat;
        assert(decimal(n).drop_last() =~= decimal(n / 10));
        assert(decimal(n)[0] == decimal(n / 10)[0]);
        assert(((digit(d) as u32) as int) == d + 48);
        assert(decimal(n).last() == digit(d));
        assert(n == (n / 10) * 10 + n % 10) by (nonlinear_arith);
    } else {
        assert(((digit(n) as u32) as int) == n + 48);
        assert(decimal(n).drop_last() =~= Seq::<char>::empty());
        assert(digits_value(Seq::<char>::empty()) == 0);
    }
}

pub(crate) fn digit_char(d: u128) -> (c: char)
    requires
        d < 10,
    ensures
        c == digit(d as nat),
{
    let b: u8 = d as u8;
    (b + 48u8) as char
}

/// Appends the decimal representation of `n`.
pub(crate) fn push_decimal(s: &mut String, n: u128)
    ensures
        final(s)@ == old(s)@ + decimal(n as nat),
    decreases n,
{
    if n >= 10 {
        push_decimal(s, n / 10);
    }
    let c = digit_char(n % 10);
    push_char(s, c);
    assert(final(s)@ =~= old(s)@ + decimal(n as nat));
}

/// The decimal representation of `n`.
pub fn decimal_string(n: u64) -> (s: String)
    ensures
        s@ == decimal(n as nat),
{
    let mut s = String::new();
    push_decimal(&mut s, n as u128);
    assert(s@ =~= decimal(n as nat));
    s
}

pub(crate) fn round_half_even_exec(n: u128, d: u128) -> (r: u128)
    requires
        d > 0,
        n / d < u128::MAX,
    ensures
        r == round_half_even(n as nat, d as nat),
{
    let q = n / d;
    let r = n % d;
    if (r > d - r) || (r == d - r && q % 2 == 1) {
        q + 1
    } else {
        q
    }
}

/// `u` is one of the powers of two that a double's spacing can take below
/// 2^64.
spec fn small_pow2(u: int) -> bool {
    ||| u == 1
    ||| u == 2
    ||| u == 4
    ||| u == 8
    ||| u == 16
    ||| u == 32
    ||| u == 64
    ||| u == 128
    ||| u == 256
    ||| u == 512
    ||| u == 1024
    ||| u == 2048
}

proof fn lemma_round_up_fits(bb: int, u: int, qq: int, q: int)
    requires
        small_pow2(u),
        0 <= qq,
        qq * u <= bb,
        bb < 0x1_0000_0000_0000_0000,
        q <= qq + 1,
    ensures
        q * u <= 0x1_0000_0000_0000_0000,
{
    assert(q * u <= qq * u + u) by (nonlinear_arith)
        requires
            q <= qq + 1,
            u >= 1,
    ;
}

/// The nearest double to `b`, as an integer.
pub(crate) fn as_double_exec(b: u64) -> (r: u128)
    ensures
        r == as_double(b as nat),
        r <= 0x1_0000_0000_0000_0000,
{
    let bb: u128 = b as u128;
    let mut x: u128 = bb;
    let mut u: u128 = 1;
    while x >= F64_EXACT
        invariant
            ulp_from(x as nat, u as nat) == ulp_from(bb as nat, 1),
            small_pow2(u as int),
            u * x <= bb,
            bb < 0x1_0000_0000_0000_0000,
        decreases x,
    {
        assert(u < 2048) by (nonlinear_arith)
            requires
                u * x <= bb,
                x >= F64_EXACT,
                bb < 0x1_0000_0000_0000_0000,
        ;
        assert((2 * u) * (x / 2) <= u * x) by (nonlinear_arith)
            requires
                u >= 1,
        ;
        x = x / 2;
        u = u * 2;
    }
    assert(bb / u < u128::MAX) by (nonlinear_arith)
        requires
            u >= 1,
            bb < 0x1_0000_0000_0000_0000,
    ;
    let q = round_half_even_exec(bb, u);
    proof {
        let qq = bb / u;
        assert(qq * u <= bb) by (nonlinear_arith)
            requires
                u >= 1,
                qq == bb / u,
        ;
        lemma_round_up_fits(bb as int, u as int, qq as int, q as int);
    }
    q * u
}

pub(crate) fn unit_index_exec(b: u64) -> (i: u128)
    ensures
        i == unit_index(b as nat),
{
    if b < 1024 {
        0
    } else if b < 1024 * 1024 {
        1
    } else if b < 1024 * 1024 * 1024 {
        2
    } else {
        3
    }
}

pub(crate) fn unit_divisor_exec(i: u128) -> (d: u128)
    ensures
        d == unit_divisor(i as nat),
        d >= 1,
{
    if i == 0 {
        1
    } else if i == 1 {
        1024
    } else if i == 2 {
        1024 * 1024
    } else {
        1024 * 1024 * 1024
    }
}

pub(crate) fn push_unit_name(s: &mut String, i: u128)
    ensures
        final(s)@ == old(s)@ + unit_name(i as nat),
{
    if i == 0 {
        push_char(s, 'B');
    } else if i == 1 {
        push_char(s, 'K');
        push_char(s, 'B');
    } else if i == 2 {
        push_char(s, 'M');
        push_char(s, 'B');
    } else {
        push_char(s, 'G');
        push_char(s, 'B');
    }
    assert(final(s)@ =~= old(s)@ + unit_name(i as nat));
}

/// Whole GB of a byte count, rounded as the `{:.0}` rendering rounds it.
pub fn whole_gigabytes(b: u64) -> (g: u128)
    ensures
        g == whole_gb(b as nat),
{
    let v = as_double_exec(b);
    assert(((v as int) / 0x4000_0000int) < u128::MAX);
    round_half_even_exec(v, 1024 * 1024 * 1024)
}

} // verus!
