//! Exact decimal numbers: an integer and the number of its digits that
//! follow the decimal point. They stand where a file holds a real number,
//! and are read, written and rounded without loss that is not stated.

use vstd::prelude::*;
use crate::number::{
    all_digits, digits_value, nat_digits, parse_digits, parse_i64, parse_int_spec, pow10,
    push_nat, round_div, round_div_signed, round_shift, scale_up, zeros, Rounding,
    lemma_nat_digits, magnitude,
};
use crate::text::{copy_range, push_chars, run_length, span, string_from_chars, CharClass};

verus! {

/// The largest exponent, in magnitude, that a decimal literal may carry.
pub const MAX_EXPONENT: i64 = 9999;

/// The number `unscaled / 10^scale`. Two decimals are equal when both fields
/// are: `1.50` and `1.5` are different decimals of the same value.
#[derive(Clone, Copy, Debug, PartialEq, Eq, Structural)]
pub struct Decimal {
    pub unscaled: i64,
    pub scale: u8,
}

/// The magnitude of `v`.
pub open spec fn abs(v: int) -> nat {
    if v < 0 {
        (-v) as nat
    } else {
        v as nat
    }
}

/// The digits of `unscaled`, with zeros in front until one digit stands
/// before the last `scale`.
pub open spec fn padded_digits(unscaled: int, scale: nat) -> Seq<char> {
    let ds = nat_digits(abs(unscaled));
    if ds.len() <= scale {
        zeros((scale + 1 - ds.len()) as nat) + ds
    } else {
        ds
    }
}

/// The plain text of `unscaled / 10^scale`: a minus sign if it is negative,
/// the integer part, and, where `scale` is not zero, a point and exactly
/// `scale` digits.
pub open spec fn decimal_text(unscaled: int, scale: nat) -> Seq<char> {
    let padded = padded_digits(unscaled, scale);
    let cut = padded.len() - scale;
    let sign = if unscaled < 0 {
        seq!['-']
    } else {
        Seq::<char>::empty()
    };
    let fraction = if scale > 0 {
        seq!['.'] + padded.skip(cut)
    } else {
        Seq::<char>::empty()
    };
    sign + padded.take(cut) + fraction
}

/// The largest number that the digits of a literal may write: what 127 bits
/// hold.
pub const MAX_COEFFICIENT: u128 = 0x7fff_ffff_ffff_ffff_ffff_ffff_ffff_ffff;

/// `v / 10^from` with as many digits after the point as fit, at most `to`:
/// rounded half to even to the largest number of digits, not above `to`, at
/// which its integer fits.
pub open spec fn finest(v: int, from: nat, to: nat) -> Option<Decimal>
    decreases to,
{
    match rescaled(v, from, to, Rounding::HalfEven) {
        Some(d) => Some(d),
        None => if to == 0 {
            None
        } else {
            finest(v, from, (to - 1) as nat)
        },
    }
}

/// The decimal of sign `negative`, digits `coefficient` and decimal exponent
/// `shift`. Where the exponent is not negative the decimal is an integer,
/// which must fit. Where it is negative the decimal keeps as many of its
/// digits after the point as fit, at most 255, and is rounded half to even
/// to those.
pub open spec fn decimal_from_parts(negative: bool, coefficient: nat, shift: int) -> Option<
    Decimal,
> {
    let v = if negative {
        -(coefficient as int)
    } else {
        coefficient as int
    };
    if coefficient > MAX_COEFFICIENT {
        None
    } else if shift >= 0 {
        let unscaled = v * pow10(shift as nat);
        if i64::MIN <= unscaled <= i64::MAX {
            Some(Decimal { unscaled: unscaled as i64, scale: 0 })
        } else {
            None
        }
    } else {
        finest(
            v,
            (-shift) as nat,
            if -shift <= 255 {
                (-shift) as nat
            } else {
                255
            },
        )
    }
}

/// The exponent that follows the digits of a literal: none, or `e` or `E`
/// and an integer of magnitude at most `MAX_EXPONENT`.
pub open spec fn exponent_spec(s: Seq<char>) -> Option<int> {
    if s.len() == 0 {
        Some(0)
    } else if s[0] == 'e' || s[0] == 'E' {
        match parse_int_spec(s.drop_first()) {
            Some(e) => if -MAX_EXPONENT <= e <= MAX_EXPONENT {
                Some(e)
            } else {
                None
            },
            None => None,
        }
    } else {
        None
    }
}

/// The decimal that the unsigned literal `body` writes under the sign
/// `negative`: digits, of which some may follow a point, at least one in
/// all; and an optional exponent.
pub open spec fn parse_unsigned_spec(negative: bool, body: Seq<char>) -> Option<Decimal> {
    let i = span(body, CharClass::Digit) as int;
    let pointed = i < body.len() && body[i] == '.';
    let frac_start = if pointed {
        i + 1
    } else {
        i
    };
    let f = if pointed {
        span(body.skip(frac_start), CharClass::Digit) as int
    } else {
        0
    };
    if i + f == 0 {
        None
    } else {
        match exponent_spec(body.skip(frac_start + f)) {
            Some(e) => decimal_from_parts(
                negative,
                digits_value(body.subrange(0, i) + body.subrange(frac_start, frac_start + f)),
                e - f,
            ),
            None => None,
        }
    }
}

/// The decimal that the literal `s` writes: an optional sign, then an
/// unsigned literal. Every digit written counts, so that `1.50` has scale 2.
pub open spec fn parse_decimal_spec(s: Seq<char>) -> Option<Decimal> {
    if s.len() > 0 && (s[0] == '-' || s[0] == '+') {
        parse_unsigned_spec(s[0] == '-', s.drop_first())
    } else {
        parse_unsigned_spec(false, s)
    }
}

/// `v / 10^from`, written with `to` digits after the point: exactly where
/// `to` is not less than `from`, else rounded. `None` where the integer of
/// the result does not fit.
pub open spec fn rescaled(v: int, from: nat, to: nat, mode: Rounding) -> Option<Decimal> {
    let unscaled = if from <= to {
        v * pow10((to - from) as nat)
    } else {
        round_div_signed(v, pow10((from - to) as nat), mode)
    };
    if to <= 255 && i64::MIN <= unscaled <= i64::MAX {
        Some(Decimal { unscaled: unscaled as i64, scale: to as u8 })
    } else {
        None
    }
}

/// The text of `d` with exactly `places` digits after the point: zeros are
/// added where `d` has fewer, and `d` is rounded half to even where it has
/// more.
pub open spec fn fixed_text(d: Decimal, places: nat) -> Seq<char> {
    if d.scale as nat <= places {
        let point = if d.scale == 0 && places > 0 {
            seq!['.']
        } else {
            Seq::<char>::empty()
        };
        decimal_text(d.unscaled as int, d.scale as nat) + point + zeros(
            (places - d.scale) as nat,
        )
    } else {
        decimal_text(
            round_div_signed(
                d.unscaled as int,
                pow10((d.scale - places) as nat),
                Rounding::HalfEven,
            ),
            places,
        )
    }
}

/// Gives a magnitude its sign, where the result fits.
pub fn signed(negative: bool, mag: u128) -> (r: Option<i64>)
    ensures
        ({
            let v = if negative {
                -(mag as int)
            } else {
                mag as int
            };
            r == if i64::MIN <= v <= i64::MAX {
                Some(v as i64)
            } else {
                None
            }
        }),
{
    if negative {
        if mag > 0x8000_0000_0000_0000u128 {
            None
        } else if mag == 0x8000_0000_0000_0000u128 {
            Some(i64::MIN)
        } else {
            Some(-(mag as i64))
        }
    } else {
        if mag > 0x7fff_ffff_ffff_ffffu128 {
            None
        } else {
            Some(mag as i64)
        }
    }
}

/// `negative`, `mag` and `from` give the number `±mag / 10^from`; the result
/// is that number with `to` digits after the point.
pub fn rescale_magnitude(negative: bool, mag: u128, from: u32, to: u8, mode: Rounding) -> (r: Option<
    Decimal,
>)
    requires
        mag < 0x8000_0000_0000_0000_0000_0000_0000_0000u128,
    ensures
        r == rescaled(
            if negative {
                -(mag as int)
            } else {
                mag as int
            },
            from as nat,
            to as nat,
            mode,
        ),
{
    let raised: Option<u128> = if from <= to as u32 {
        scale_up(mag, to as u32 - from, 0x8000_0000_0000_0000u128)
    } else {
        Some(round_shift(mag, from - to as u32, mode))
    };
    proof {
        if from <= to as u32 {
            let p = pow10((to - from) as nat);
            assert((-(mag as int)) * p == -(mag * p)) by (nonlinear_arith);
        }
    }
    match raised {
        Some(m) => match signed(negative, m) {
            Some(unscaled) => Some(Decimal { unscaled, scale: to }),
            None => None,
        },
        None => None,
    }
}

/// Reads the exponent of a literal, which starts at `from`.
fn literal_exponent(s: &[char], from: usize) -> (r: Option<i64>)
    requires
        from <= s.len(),
    ensures
        match exponent_spec(s@.skip(from as int)) {
            Some(e) => r == Some(e as i64) && -MAX_EXPONENT <= e <= MAX_EXPONENT,
            None => r is None,
        },
{
    if from == s.len() {
        Some(0)
    } else if s[from] == 'e' || s[from] == 'E' {
        let digits = copy_range(s, from + 1, s.len());
        assert(digits@ =~= s@.skip(from as int).drop_first());
        match parse_i64(digits.as_slice()) {
            Some(e) => {
                if e < -MAX_EXPONENT || e > MAX_EXPONENT {
                    None
                } else {
                    Some(e)
                }
            },
            None => None,
        }
    } else {
        None
    }
}

/// `±mag / 10^from` with as many digits after the point as fit, at most
/// `to`.
pub fn finest_fit(negative: bool, mag: u128, from: u32, to: u8) -> (r: Option<Decimal>)
    requires
        mag < 0x8000_0000_0000_0000_0000_0000_0000_0000u128,
    ensures
        r == finest(
            if negative {
                -(mag as int)
            } else {
                mag as int
            },
            from as nat,
            to as nat,
        ),
{
    let ghost v: int = if negative {
        -(mag as int)
    } else {
        mag as int
    };
    let mut s: u8 = to;
    loop
        invariant
            s <= to,
            mag < 0x8000_0000_0000_0000_0000_0000_0000_0000u128,
            v == (if negative {
                -(mag as int)
            } else {
                mag as int
            }),
            finest(v, from as nat, to as nat) == finest(v, from as nat, s as nat),
        decreases s,
    {
        match rescale_magnitude(negative, mag, from, s, Rounding::HalfEven) {
            Some(d) => {
                return Some(d);
            },
            None => {
                if s == 0 {
                    return None;
                }
                s = s - 1;
            },
        }
    }
}

/// The decimal of the given sign, digits and decimal exponent.
fn decimal_of_parts(negative: bool, digits: &[char], shift: i128) -> (r: Option<Decimal>)
    requires
        digits.len() > 0,
        all_digits(digits@),
        -0x1_0000_0000_0000_0000_0000i128 <= shift <= MAX_EXPONENT,
    ensures
        r == decimal_from_parts(negative, digits_value(digits@), shift as int),
{
    assert(digits@.skip(0) =~= digits@);
    let c = match parse_digits(digits, 0, MAX_COEFFICIENT) {
        Some(c) => c,
        None => {
            return None;
        },
    };
    let ghost v: int = if negative {
        -(c as int)
    } else {
        c as int
    };
    if shift >= 0 {
        let limit: u128 = if negative {
            0x8000_0000_0000_0000u128
        } else {
            0x7fff_ffff_ffff_ffffu128
        };
        proof {
            let p = pow10(shift as nat);
            assert((-(c as int)) * p == -(c * p)) by (nonlinear_arith);
        }
        match scale_up(c, shift as u32, limit) {
            Some(m) => match signed(negative, m) {
                Some(unscaled) => Some(Decimal { unscaled, scale: 0 }),
                None => None,
            },
            None => None,
        }
    } else if shift < -400 {
        proof {
            // so far behind the point that nothing is left at 255 digits
            let k = ((-shift) - 255) as nat;
            crate::number::lemma_rounds_to_zero(c as nat, k, Rounding::HalfEven);
        }
        Some(Decimal { unscaled: 0, scale: 255 })
    } else {
        let from: u32 = (-shift) as u32;
        let to: u8 = if from <= 255 {
            from as u8
        } else {
            255
        };
        finest_fit(negative, c, from, to)
    }
}

/// Reads an unsigned decimal literal under the sign `negative`.
fn parse_unsigned(negative: bool, body: &[char]) -> (r: Option<Decimal>)
    ensures
        r == parse_unsigned_spec(negative, body@),
{
    let digit = CharClass::Digit;
    assert(body@.skip(0) =~= body@);
    let i = run_length(body, 0, &digit);
    let pointed = i < body.len() && body[i] == '.';
    let frac_start: usize = if pointed {
        i + 1
    } else {
        i
    };
    let f: usize = if pointed {
        run_length(body, frac_start, &digit)
    } else {
        0
    };
    if i == 0 && f == 0 {
        return None;
    }
    let exp_start = frac_start + f;
    let exponent: i64 = match literal_exponent(body, exp_start) {
        Some(e) => e,
        None => {
            return None;
        },
    };
    let mut digits = copy_range(body, 0, i);
    let fraction = copy_range(body, frac_start, exp_start);
    push_chars(&mut digits, fraction.as_slice());
    proof {
        crate::text::lemma_span(body@, CharClass::Digit);
        if pointed {
            crate::text::lemma_span(body@.skip(frac_start as int), CharClass::Digit);
        }
        assert forall|j: int| 0 <= j < digits@.len() implies crate::text::is_digit(
            #[trigger] digits@[j],
        ) by {
            if j < i {
                assert(digits@[j] == body@[j]);
            } else {
                assert(digits@[j] == body@.skip(frac_start as int)[j - i]);
            }
        }
    }
    decimal_of_parts(negative, digits.as_slice(), exponent as i128 - f as i128)
}

impl Decimal {
    /// The plain text of this decimal.
    pub open spec fn text(self) -> Seq<char> {
        decimal_text(self.unscaled as int, self.scale as nat)
    }

    /// This decimal with `places` digits after the point, rounded half to
    /// even where it has more; `None` where the result does not fit.
    pub open spec fn rescale_spec(self, places: u8) -> Option<Decimal> {
        rescaled(self.unscaled as int, self.scale as nat, places as nat, Rounding::HalfEven)
    }

    /// The product of the two decimals with `places` digits after the point.
    pub open spec fn times_spec(self, other: Decimal, places: u8, mode: Rounding) -> Option<
        Decimal,
    > {
        rescaled(
            self.unscaled * other.unscaled,
            (self.scale + other.scale) as nat,
            places as nat,
            mode,
        )
    }

    /// The decimal `unscaled / 10^scale`.
    pub fn new(unscaled: i64, scale: u8) -> (d: Decimal)
        ensures
            d == (Decimal { unscaled, scale }),
    {
        Decimal { unscaled, scale }
    }

    /// Reads a decimal literal.
    pub fn parse(s: &[char]) -> (r: Option<Decimal>)
        ensures
            r == parse_decimal_spec(s@),
    {
        if s.len() > 0 && (s[0] == '-' || s[0] == '+') {
            let body = copy_range(s, 1, s.len());
            assert(body@ =~= s@.drop_first());
            parse_unsigned(s[0] == '-', body.as_slice())
        } else {
            parse_unsigned(false, s)
        }
    }

    /// Appends the plain text of this decimal to `out`.
    pub fn push_text(&self, out: &mut Vec<char>)
        ensures
            final(out)@ == old(out)@ + self.text(),
    {
        let mut ds: Vec<char> = Vec::new();
        push_nat(&mut ds, magnitude(self.unscaled));
        proof {
            lemma_nat_digits(abs(self.unscaled as int));
            assert(ds@ =~= nat_digits(abs(self.unscaled as int)));
        }
        let scale: usize = self.scale as usize;
        let mut padded: Vec<char> = Vec::new();
        let mut k: usize = ds.len();
        while k <= scale
            invariant
                ds.len() <= k <= scale + 1 || (k == ds.len() && k > scale),
                scale <= 255,
                padded@ =~= zeros((k - ds.len()) as nat),
            decreases scale + 1 - k,
        {
            padded.push('0');
            k += 1;
        }
        push_chars(&mut padded, ds.as_slice());
        assert(padded@ =~= padded_digits(self.unscaled as int, scale as nat));
        let cut: usize = padded.len() - scale;
        if self.unscaled < 0 {
            out.push('-');
        }
        let whole = copy_range(padded.as_slice(), 0, cut);
        push_chars(out, whole.as_slice());
        if scale > 0 {
            out.push('.');
            let fraction = copy_range(padded.as_slice(), cut, padded.len());
            push_chars(out, fraction.as_slice());
        }
        assert(out@ =~= old(out)@ + self.text());
    }

    /// The plain text of this decimal.
    pub fn to_string(&self) -> (s: String)
        ensures
            s@ == self.text(),
    {
        let mut out: Vec<char> = Vec::new();
        self.push_text(&mut out);
        assert(out@ =~= self.text());
        string_from_chars(out.as_slice())
    }

    /// This decimal with exactly `places` digits after the point.
    pub fn rescale(&self, places: u8) -> (r: Option<Decimal>)
        ensures
            r == self.rescale_spec(places),
    {
        rescale_magnitude(
            self.unscaled < 0,
            magnitude(self.unscaled) as u128,
            self.scale as u32,
            places,
            Rounding::HalfEven,
        )
    }

    /// The product of this decimal and `other`, with exactly `places` digits
    /// after the point.
    pub fn times(&self, other: &Decimal, places: u8, mode: Rounding) -> (r: Option<Decimal>)
        ensures
            r == self.times_spec(*other, places, mode),
    {
        let a = magnitude(self.unscaled) as u128;
        let b = magnitude(other.unscaled) as u128;
        assert(a * b < 0x8000_0000_0000_0000_0000_0000_0000_0000u128) by (nonlinear_arith)
            requires
                a <= 0x8000_0000_0000_0000u128,
                b <= 0x8000_0000_0000_0000u128,
        ;
        let negative = (self.unscaled < 0) != (other.unscaled < 0) && a != 0 && b != 0;
        proof {
            let x = self.unscaled as int;
            let y = other.unscaled as int;
            assert(x * y == if negative {
                -(a * b)
            } else {
                a * b
            }) by (nonlinear_arith)
                requires
                    a == abs(x),
                    b == abs(y),
                    negative == ((x < 0) != (y < 0) && a != 0 && b != 0),
            ;
        }
        rescale_magnitude(
            negative,
            a * b,
            self.scale as u32 + other.scale as u32,
            places,
            mode,
        )
    }

    /// Appends to `out` the text of this decimal with exactly `places`
    /// digits after the point.
    pub fn push_fixed(&self, out: &mut Vec<char>, places: u8)
        ensures
            final(out)@ == old(out)@ + fixed_text(*self, places as nat),
    {
        if self.scale <= places {
            self.push_text(out);
            if self.scale == 0 && places > 0 {
                out.push('.');
            }
            let ghost mid = out@;
            let mut k: u8 = self.scale;
            while k < places
                invariant
                    self.scale <= k <= places,
                    out@ =~= mid + zeros((k - self.scale) as nat),
                decreases places - k,
            {
                out.push('0');
                k += 1;
            }
            assert(out@ =~= old(out)@ + fixed_text(*self, places as nat));
        } else {
            let rounded = round_shift(
                magnitude(self.unscaled) as u128,
                (self.scale - places) as u32,
                Rounding::HalfEven,
            );
            proof {
                // rounding away at least one digit leaves room for the sign
                lemma_rounded_fits(abs(self.unscaled as int), (self.scale - places) as nat);
            }
            let d = Decimal {
                unscaled: if self.unscaled < 0 {
                    -(rounded as i64)
                } else {
                    rounded as i64
                },
                scale: places,
            };
            d.push_text(out);
        }
    }
}

/// A magnitude that fits 64 bits, rounded at one digit or more, is less than
/// `2^63`.
pub proof fn lemma_rounded_fits(mag: nat, k: nat)
    requires
        mag <= 0x8000_0000_0000_0000,
        k >= 1,
    ensures
        round_div(mag, pow10(k), Rounding::HalfEven) < 0x8000_0000_0000_0000,
{
    let d = pow10(k);
    crate::number::lemma_pow10_monotonic(1, k);
    assert(pow10(1) == 10) by {
        reveal_with_fuel(pow10, 2);
    }
    vstd::arithmetic::div_mod::lemma_fundamental_div_mod(mag as int, d as int);
    let q = mag / d;
    assert(d * q <= mag);
    assert(q + 1 < 0x8000_0000_0000_0000) by (nonlinear_arith)
        requires
            d * q <= mag,
            d >= 10,
            mag <= 0x8000_0000_0000_0000,
            q >= 0,
    ;
}

} // verus!
