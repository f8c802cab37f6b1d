//! Decimal digits: the value of a digit string, the digits of a number, and
//! the integer grammar of `str::parse` with its inverse.

use vstd::prelude::*;
use crate::text::{is_digit, is_digit_char};

verus! {

/// The value of the decimal digit `c`.
pub open spec fn digit_value(c: char) -> nat {
    (c as u32 - 48) as nat
}

/// The decimal digit of value `d`.
pub open spec fn digit_char(d: nat) -> char {
    ((48 + d) as u8) as char
}

/// Whether `s` holds nothing but decimal digits.
pub open spec fn all_digits(s: Seq<char>) -> bool {
    forall|i: int| 0 <= i < s.len() ==> is_digit(#[trigger] s[i])
}

/// The number that the digit string `s` writes, most significant digit first.
pub open spec fn digits_value(s: Seq<char>) -> nat
    decreases s.len(),
{
    if s.len() == 0 {
        0
    } else {
        digits_value(s.drop_last()) * 10 + digit_value(s.last())
    }
}

/// The decimal digits of `n`, without leading zeros.
pub open spec fn nat_digits(n: nat) -> Seq<char>
    decreases n,
{
    if n < 10 {
        seq![digit_char(n)]
    } else {
        nat_digits(n / 10).push(digit_char(n % 10))
    }
}

/// The power of ten of exponent `n`.
pub open spec fn pow10(n: nat) -> nat
    decreases n,
{
    if n == 0 {
        1
    } else {
        10 * pow10((n - 1) as nat)
    }
}

/// A string of `n` zeros.
pub open spec fn zeros(n: nat) -> Seq<char> {
    Seq::new(n, |i: int| '0')
}

/// The text of the integer `v`: a minus sign if it is negative, then the
/// digits of its magnitude.
pub open spec fn int_text(v: int) -> Seq<char> {
    if v < 0 {
        seq!['-'] + nat_digits((-v) as nat)
    } else {
        nat_digits(v as nat)
    }
}

/// The integer that `s` writes in the grammar of `str::parse` for integers:
/// an optional sign, then one or more decimal digits.
pub open spec fn parse_int_spec(s: Seq<char>) -> Option<int> {
    if s.len() > 0 && s[0] == '-' {
        let body = s.drop_first();
        if body.len() > 0 && all_digits(body) {
            Some(-(digits_value(body) as int))
        } else {
            None
        }
    } else {
        parse_nat_spec(s)
    }
}

/// As `parse_int_spec`, without the minus sign.
pub open spec fn parse_nat_spec(s: Seq<char>) -> Option<int> {
    let body = if s.len() > 0 && s[0] == '+' {
        s.drop_first()
    } else {
        s
    };
    if body.len() > 0 && all_digits(body) {
        Some(digits_value(body) as int)
    } else {
        None
    }
}

/// What `str::parse::<i64>` accepts, and the value it gives.
pub open spec fn parse_i64_spec(s: Seq<char>) -> Option<i64> {
    match parse_int_spec(s) {
        Some(v) => if i64::MIN <= v <= i64::MAX {
            Some(v as i64)
        } else {
            None
        },
        None => None,
    }
}

/// What `str::parse::<usize>` accepts, and the value it gives.
pub open spec fn parse_usize_spec(s: Seq<char>) -> Option<usize> {
    match parse_nat_spec(s) {
        Some(v) => if v <= usize::MAX {
            Some(v as usize)
        } else {
            None
        },
        None => None,
    }
}

/// The digit of a value is a digit, and has that value.
pub proof fn lemma_digit_char(d: nat)
    requires
        d < 10,
    ensures
        is_digit(digit_char(d)),
        digit_value(digit_char(d)) == d,
        digit_char(d) != '-',
        digit_char(d) != '+',
        digit_char(d) != '.',
{
}

/// The digits of `n` are digits, write `n`, and start with no zero unless
/// `n` is zero.
pub proof fn lemma_nat_digits(n: nat)
    ensures
        nat_digits(n).len() >= 1,
        all_digits(nat_digits(n)),
        digits_value(nat_digits(n)) == n,
        n > 0 ==> nat_digits(n)[0] != '0',
    decreases n,
{
    if n < 10 {
        lemma_digit_char(n);
        let s = seq![digit_char(n)];
        assert(s.drop_last() =~= Seq::<char>::empty());
        assert(digits_value(s.drop_last()) == 0);
        assert(s.last() == digit_char(n));
    } else {
        lemma_nat_digits(n / 10);
        lemma_digit_char(n % 10);
        let p = nat_digits(n / 10);
        let s = p.push(digit_char(n % 10));
        assert(s.drop_last() =~= p);
        assert(s.last() == digit_char(n % 10));
        assert(s[0] == p[0]);
    }
}

/// A digit string is worth at least as much as each of its prefixes.
pub proof fn lemma_digits_prefix(s: Seq<char>, k: int)
    requires
        0 <= k <= s.len(),
    ensures
        digits_value(s.take(k)) <= digits_value(s),
    decreases s.len() - k,
{
    if k == s.len() {
        assert(s.take(k) =~= s);
    } else {
        lemma_digits_prefix(s.drop_last(), k);
        assert(s.drop_last().take(k) =~= s.take(k));
    }
}

/// The value of two digit strings laid end to end.
pub proof fn lemma_digits_concat(a: Seq<char>, b: Seq<char>)
    ensures
        digits_value(a + b) == digits_value(a) * pow10(b.len()) + digits_value(b),
    decreases b.len(),
{
    if b.len() == 0 {
        assert(a + b =~= a);
        assert(pow10(0) == 1);
        assert(digits_value(a) * 1 == digits_value(a));
    } else {
        let b0 = b.drop_last();
        lemma_digits_concat(a, b0);
        assert((a + b).drop_last() =~= a + b0);
        assert((a + b).last() == b.last());
        let p = pow10(b.len());
        let p0 = pow10(b0.len());
        assert(p == 10 * p0);
        let x = digits_value(a);
        assert(x * p == x * p0 * 10) by (nonlinear_arith)
            requires
                p == 10 * p0,
        ;
        assert(digits_value(a + b) == digits_value(a + b0) * 10 + digit_value(b.last()));
        assert(digits_value(b) == digits_value(b0) * 10 + digit_value(b.last()));
    }
}

/// Zeros are digits, and write zero.
pub proof fn lemma_zeros(n: nat)
    ensures
        all_digits(zeros(n)),
        digits_value(zeros(n)) == 0,
        zeros(n).len() == n,
    decreases n,
{
    if n > 0 {
        lemma_zeros((n - 1) as nat);
        assert(zeros(n).drop_last() =~= zeros((n - 1) as nat));
    }
}

/// Reading the text of an integer gives the integer back.
pub proof fn lemma_parse_int_text(v: int)
    ensures
        parse_int_spec(int_text(v)) == Some(v),
{
    if v < 0 {
        let m = (-v) as nat;
        lemma_nat_digits(m);
        let s = int_text(v);
        assert(s.drop_first() =~= nat_digits(m));
    } else {
        lemma_nat_digits(v as nat);
        let s = nat_digits(v as nat);
        lemma_first_is_digit(s);
    }
}

/// A digit string does not start with a sign.
pub proof fn lemma_first_is_digit(s: Seq<char>)
    requires
        s.len() > 0,
        all_digits(s),
    ensures
        s[0] != '-',
        s[0] != '+',
{
    assert(is_digit(s[0]));
}

/// The value that the digits of `s` from `from` on write, where there is at
/// least one, all are digits and the value is at most `limit`.
pub fn parse_digits(s: &[char], from: usize, limit: u128) -> (r: Option<u128>)
    requires
        from <= s.len(),
    ensures
        ({
            let body = s@.skip(from as int);
            r == if body.len() > 0 && all_digits(body) && digits_value(body) <= limit {
                Some(digits_value(body) as u128)
            } else {
                None
            }
        }),
{
    let ghost body = s@.skip(from as int);
    if from == s.len() {
        return None;
    }
    let mut acc: u128 = 0;
    let mut i: usize = from;
    assert(body.take(0) =~= Seq::<char>::empty());
    while i < s.len()
        invariant
            from <= i <= s.len(),
            body == s@.skip(from as int),
            all_digits(body.take(i - from)),
            acc == digits_value(body.take(i - from)),
            acc <= limit,
        decreases s.len() - i,
    {
        let c = s[i];
        assert(c == body[i - from]);
        if !is_digit_char(c) {
            return None;
        }
        let d: u128 = (c as u32 - 48) as u128;
        proof {
            let p = body.take(i - from + 1);
            assert(p.drop_last() =~= body.take(i - from));
            assert(p.last() == c);
            assert(digits_value(p) == acc * 10 + d);
            assert forall|j: int| 0 <= j < p.len() implies is_digit(#[trigger] p[j]) by {
                if j < i - from {
                    assert(p[j] == body.take(i - from)[j]);
                }
            }
            lemma_digits_prefix(body, i - from + 1);
        }
        if d > limit || acc > (limit - d) / 10 {
            return None;
        }
        acc = acc * 10 + d;
        i += 1;
    }
    assert(body.take(i - from) =~= body);
    Some(acc)
}

/// Reads a `usize` as `str::parse` does.
pub fn parse_usize(s: &[char]) -> (r: Option<usize>)
    ensures
        r == parse_usize_spec(s@),
{
    let from: usize = if s.len() > 0 && s[0] == '+' {
        1
    } else {
        0
    };
    proof {
        if from == 1 {
            assert(s@.skip(1) =~= s@.drop_first());
        } else {
            assert(s@.skip(0) =~= s@);
        }
    }
    match parse_digits(s, from, usize::MAX as u128) {
        Some(v) => Some(v as usize),
        None => None,
    }
}

/// Reads an `i64` as `str::parse` does.
pub fn parse_i64(s: &[char]) -> (r: Option<i64>)
    ensures
        r == parse_i64_spec(s@),
{
    if s.len() > 0 && s[0] == '-' {
        assert(s@.skip(1) =~= s@.drop_first());
        match parse_digits(s, 1, 0x8000_0000_0000_0000u128) {
            Some(v) => {
                if v == 0x8000_0000_0000_0000u128 {
                    Some(i64::MIN)
                } else {
                    Some(-(v as i64))
                }
            },
            None => None,
        }
    } else {
        let from: usize = if s.len() > 0 && s[0] == '+' {
            1
        } else {
            0
        };
        proof {
            if from == 1 {
                assert(s@.skip(1) =~= s@.drop_first());
            } else {
                assert(s@.skip(0) =~= s@);
            }
        }
        match parse_digits(s, from, i64::MAX as u128) {
            Some(v) => Some(v as i64),
            None => None,
        }
    }
}

/// Appends the decimal digits of `n` to `out`.
pub fn push_nat(out: &mut Vec<char>, n: u64)
    ensures
        final(out)@ == old(out)@ + nat_digits(n as nat),
    decreases n,
{
    if n >= 10 {
        push_nat(out, n / 10);
    }
    let d: u8 = (n % 10) as u8;
    out.push((48u8 + d) as char);
    proof {
        if n >= 10 {
            assert(out@ =~= old(out)@ + nat_digits(n as nat));
        } else {
            assert(out@ =~= old(out)@ + nat_digits(n as nat));
        }
    }
}

/// The magnitude of `v`.
pub fn magnitude(v: i64) -> (m: u64)
    ensures
        m == (if v < 0 {
            -(v as int)
        } else {
            v as int
        }),
{
    if v < 0 {
        ((-(v + 1)) as u64) + 1
    } else {
        v as u64
    }
}

/// Appends the text of `v` to `out`.
pub fn push_int(out: &mut Vec<char>, v: i64)
    ensures
        final(out)@ == old(out)@ + int_text(v as int),
{
    if v < 0 {
        out.push('-');
    }
    let ghost mid = out@;
    push_nat(out, magnitude(v));
    proof {
        if v < 0 {
            assert(mid =~= old(out)@ + seq!['-']);
            assert(out@ =~= old(out)@ + int_text(v as int));
        }
    }
}


/// How a quotient that falls between two integers is rounded.
#[derive(Clone, Copy, Debug, PartialEq, Eq, Structural)]
pub enum Rounding {
    /// To the nearest integer, and to the even one of two that are equally
    /// near.
    HalfEven,
    /// To the nearest integer, and away from zero where two are equally near.
    HalfAwayFromZero,
}

/// `n / d`, rounded to an integer.
pub open spec fn round_div(n: nat, d: nat, mode: Rounding) -> nat
    recommends
        d > 0,
{
    let q = n / d;
    let r = n % d;
    if 2 * r < d {
        q
    } else if 2 * r > d {
        q + 1
    } else {
        match mode {
            Rounding::HalfAwayFromZero => q + 1,
            Rounding::HalfEven => if q % 2 == 0 {
                q
            } else {
                q + 1
            },
        }
    }
}

/// `v / d`, rounded to an integer; the magnitude is rounded, so that the
/// result of `-v` is the negative of that of `v`.
pub open spec fn round_div_signed(v: int, d: nat, mode: Rounding) -> int
    recommends
        d > 0,
{
    if v < 0 {
        -(round_div((-v) as nat, d, mode) as int)
    } else {
        round_div(v as nat, d, mode) as int
    }
}

/// A rounded quotient is a nearest integer: it differs from the quotient by
/// no more than a half.
pub proof fn lemma_round_div_nearest(n: nat, d: nat, mode: Rounding)
    requires
        d > 0,
    ensures
        2 * (round_div(n, d, mode) * d - n) <= d,
        2 * (n - round_div(n, d, mode) * d) <= d,
{
    let q = n / d;
    let r = n % d;
    vstd::arithmetic::div_mod::lemma_fundamental_div_mod(n as int, d as int);
    assert(n == d * q + r);
    let v = round_div(n, d, mode);
    if v == q {
        assert(v * d == d * q) by (nonlinear_arith)
            requires
                v == q,
        ;
    } else {
        assert(v == q + 1);
        assert(v * d == d * q + d) by (nonlinear_arith)
            requires
                v == q + 1,
        ;
    }
}

/// A power of ten is at least one.
pub proof fn lemma_pow10_positive(n: nat)
    ensures
        pow10(n) >= 1,
    decreases n,
{
    if n > 0 {
        lemma_pow10_positive((n - 1) as nat);
    }
}

/// The powers of ten grow with their exponents.
pub proof fn lemma_pow10_monotonic(a: nat, b: nat)
    requires
        a <= b,
    ensures
        pow10(a) <= pow10(b),
    decreases b,
{
    if a < b {
        lemma_pow10_monotonic(a, (b - 1) as nat);
        lemma_pow10_positive((b - 1) as nat);
    }
}

/// The power of a sum is the product of the powers.
pub proof fn lemma_pow10_add(a: nat, b: nat)
    ensures
        pow10(a + b) == pow10(a) * pow10(b),
    decreases b,
{
    if b == 0 {
        assert(pow10(a) * 1 == pow10(a));
    } else {
        lemma_pow10_add(a, (b - 1) as nat);
        let x = pow10(a);
        let y = pow10((b - 1) as nat);
        assert(pow10(a + b) == 10 * pow10((a + b - 1) as nat));
        assert(x * (10 * y) == 10 * (x * y)) by (nonlinear_arith);
    }
}

/// The powers of ten that bound the machine integers used here.
pub proof fn lemma_pow10_values()
    ensures
        pow10(19) == 10_000_000_000_000_000_000,
        pow10(20) == 100_000_000_000_000_000_000,
        pow10(38) == 100_000_000_000_000_000_000_000_000_000_000_000_000,
        pow10(39) == 1_000_000_000_000_000_000_000_000_000_000_000_000_000,
{
    reveal_with_fuel(pow10, 20);
    assert(pow10(19) == 10_000_000_000_000_000_000);
    assert(pow10(20) == 10 * pow10(19));
    lemma_pow10_add(19, 19);
    assert(pow10(38) == 100_000_000_000_000_000_000_000_000_000_000_000_000);
    assert(pow10(39) == 10 * pow10(38));
}

/// `10^k`.
pub fn pow10_u128(k: u32) -> (p: u128)
    requires
        k <= 38,
    ensures
        p == pow10(k as nat),
{
    let mut p: u128 = 1;
    let mut i: u32 = 0;
    while i < k
        invariant
            i <= k <= 38,
            p == pow10(i as nat),
        decreases k - i,
    {
        proof {
            lemma_pow10_monotonic((i + 1) as nat, 38);
            lemma_pow10_values();
        }
        p = p * 10;
        i += 1;
    }
    p
}

/// A magnitude that 127 bits hold, over a power of ten of thirty-nine digits
/// or more, rounds to zero.
pub proof fn lemma_rounds_to_zero(mag: nat, k: nat, mode: Rounding)
    requires
        mag < 0x8000_0000_0000_0000_0000_0000_0000_0000,
        k >= 39,
    ensures
        round_div(mag, pow10(k), mode) == 0,
{
    lemma_pow10_values();
    lemma_pow10_monotonic(39, k);
    let d = pow10(k);
    assert(2 * mag < d);
    vstd::arithmetic::div_mod::lemma_small_mod(mag, d);
    vstd::arithmetic::div_mod::lemma_basic_div(mag as int, d as int);
}

/// `mag / 10^k`, rounded to an integer.
pub fn round_shift(mag: u128, k: u32, mode: Rounding) -> (r: u128)
    requires
        mag < 0x8000_0000_0000_0000_0000_0000_0000_0000u128,
    ensures
        r == round_div(mag as nat, pow10(k as nat), mode),
        r <= mag,
{
    proof {
        lemma_pow10_values();
        lemma_pow10_positive(k as nat);
    }
    if k >= 39 {
        proof {
            lemma_pow10_monotonic(39, k as nat);
            let d = pow10(k as nat);
            assert(2 * mag < d);
            vstd::arithmetic::div_mod::lemma_small_mod(mag as nat, d);
            vstd::arithmetic::div_mod::lemma_basic_div(mag as int, d as int);
        }
        return 0;
    }
    let p = pow10_u128(k);
    let q = mag / p;
    let r = mag % p;
    proof {
        vstd::arithmetic::div_mod::lemma_fundamental_div_mod(mag as int, p as int);
        assert(p * q <= mag);
        assert(q <= mag) by (nonlinear_arith)
            requires
                p * q <= mag,
                p >= 1,
                q >= 0,
        ;
        if k == 0 {
            assert(p == 1);
            assert(r == 0);
        } else {
            lemma_pow10_monotonic(1, k as nat);
            assert(pow10(1) == 10) by {
                reveal_with_fuel(pow10, 2);
            }
            // a remainder makes the quotient smaller than the magnitude
            assert(q < mag || mag == 0) by (nonlinear_arith)
                requires
                    p * q <= mag,
                    p >= 10,
                    q >= 0,
            ;
        }
    }
    if 2 * r < p {
        q
    } else if 2 * r > p {
        q + 1
    } else {
        match mode {
            Rounding::HalfAwayFromZero => q + 1,
            Rounding::HalfEven => if q % 2 == 0 {
                q
            } else {
                q + 1
            },
        }
    }
}

/// `mag * 10^k`, where that is at most `limit`.
pub fn scale_up(mag: u128, k: u32, limit: u128) -> (r: Option<u128>)
    ensures
        r == if mag * pow10(k as nat) <= limit {
            Some((mag * pow10(k as nat)) as u128)
        } else {
            None
        },
{
    if mag == 0 {
        assert(0 * pow10(k as nat) == 0);
        return Some(0);
    }
    let mut acc: u128 = mag;
    let mut i: u32 = 0;
    if mag > limit {
        proof {
            lemma_pow10_positive(k as nat);
            assert(mag * pow10(k as nat) >= mag) by (nonlinear_arith)
                requires
                    pow10(k as nat) >= 1,
            ;
        }
        return None;
    }
    assert(pow10(0) == 1);
    assert(mag * pow10(0) == mag);
    while i < k
        invariant
            i <= k,
            mag >= 1,
            acc == mag * pow10(i as nat),
            acc <= limit,
        decreases k - i,
    {
        proof {
            assert(pow10((i + 1) as nat) == 10 * pow10(i as nat));
            assert(mag * pow10((i + 1) as nat) == 10 * (mag * pow10(i as nat)))
                by (nonlinear_arith)
                requires
                    pow10((i + 1) as nat) == 10 * pow10(i as nat),
            ;
        }
        if acc > limit / 10 {
            proof {
                lemma_pow10_monotonic((i + 1) as nat, k as nat);
                assert(mag * pow10(k as nat) >= mag * pow10((i + 1) as nat)) by (nonlinear_arith)
                    requires
                        pow10(k as nat) >= pow10((i + 1) as nat),
                        mag >= 1,
                ;
            }
            return None;
        }
        acc = acc * 10;
        i += 1;
    }
    Some(acc)
}

} // verus!
