//! What reading gives back of numbers that were written.

use vstd::prelude::*;
use crate::decimal::{
    abs, decimal_from_parts, finest, decimal_text, exponent_spec, fixed_text, padded_digits,
    parse_decimal_spec, parse_unsigned_spec, rescaled, Decimal,
};
use crate::number::{
    all_digits, digits_value, int_text, lemma_digits_concat, lemma_first_is_digit,
    lemma_nat_digits, lemma_parse_int_text, lemma_zeros, nat_digits, parse_i64_spec,
    parse_usize_spec, pow10, round_div, zeros, Rounding, digit_char,
};
use crate::text::{is_digit, is_space, lemma_span_is, CharClass};
use crate::text_lemmas::{free_of, is_token, is_trimmed};

verus! {

/// Whether `c` can stand in the text of a number: a digit, a minus sign or a
/// point.
pub open spec fn is_numeral(c: char) -> bool {
    is_digit(c) || c == '-' || c == '.'
}

/// Whether `s` is made of the characters of numbers, and of at least one.
pub open spec fn is_number_text(s: Seq<char>) -> bool {
    s.len() > 0 && forall|i: int| 0 <= i < s.len() ==> is_numeral(#[trigger] s[i])
}

/// The text of a number is a token, and free of what ends a line or a
/// declaration or starts a comment.
pub proof fn lemma_number_text_is_token(s: Seq<char>)
    requires
        is_number_text(s),
    ensures
        is_token(s),
        is_trimmed(s),
        free_of(s, '\n'),
        free_of(s, '\r'),
        free_of(s, '#'),
        free_of(s, '='),
        s.last() != '\r',
{
    assert forall|i: int| 0 <= i < s.len() implies !is_space(#[trigger] s[i]) && s[i] != '\n'
        && s[i] != '\r' && s[i] != '#' && s[i] != '=' by {
        assert(is_numeral(s[i]));
    }
    assert(!is_space(s[0]));
    assert(!is_space(s[s.len() - 1]));
}

/// The digits of a number are the text of a number.
pub proof fn lemma_nat_digits_text(n: nat)
    ensures
        is_number_text(nat_digits(n)),
{
    lemma_nat_digits(n);
}

/// Reading the digits of a number gives the number back.
pub proof fn lemma_parse_usize_digits(n: usize)
    ensures
        parse_usize_spec(nat_digits(n as nat)) == Some(n),
{
    lemma_nat_digits(n as nat);
    lemma_first_is_digit(nat_digits(n as nat));
}

/// The text of an integer is the text of a number.
pub proof fn lemma_int_text(v: int)
    ensures
        is_number_text(int_text(v)),
{
    if v < 0 {
        lemma_nat_digits((-v) as nat);
        let s = int_text(v);
        let ds = nat_digits((-v) as nat);
        assert forall|i: int| 0 <= i < s.len() implies is_numeral(#[trigger] s[i]) by {
            if i > 0 {
                assert(s[i] == ds[i - 1]);
            }
        }
    } else {
        lemma_nat_digits(v as nat);
    }
}

/// Reading the text of an integer gives the integer back.
pub proof fn lemma_parse_i64_text(v: i64)
    ensures
        parse_i64_spec(int_text(v as int)) == Some(v),
{
    lemma_parse_int_text(v as int);
}

/// The padded digits of a decimal are digits, write its magnitude, and are
/// more than its scale.
pub proof fn lemma_padded_digits(unscaled: int, scale: nat)
    ensures
        all_digits(padded_digits(unscaled, scale)),
        digits_value(padded_digits(unscaled, scale)) == abs(unscaled),
        padded_digits(unscaled, scale).len() > scale,
{
    let ds = nat_digits(abs(unscaled));
    lemma_nat_digits(abs(unscaled));
    if ds.len() <= scale {
        let z = zeros((scale + 1 - ds.len()) as nat);
        lemma_zeros((scale + 1 - ds.len()) as nat);
        lemma_digits_concat(z, ds);
        let p = z + ds;
        assert forall|i: int| 0 <= i < p.len() implies is_digit(#[trigger] p[i]) by {
            if i < z.len() {
                assert(p[i] == z[i]);
            } else {
                assert(p[i] == ds[i - z.len()]);
            }
        }
        assert(0 * pow10(ds.len()) == 0);
    }
}

/// The text of a decimal without its sign: the integer part and, where the
/// scale is not zero, a point and the digits after it.
pub open spec fn unsigned_text(unscaled: int, scale: nat) -> Seq<char> {
    let padded = padded_digits(unscaled, scale);
    let cut = padded.len() - scale;
    padded.take(cut) + if scale > 0 {
        seq!['.'] + padded.skip(cut)
    } else {
        Seq::<char>::empty()
    }
}

/// Reading the unsigned text of a decimal under its sign gives the decimal
/// back.
pub proof fn lemma_parse_unsigned_text(negative: bool, unscaled: int, scale: nat)
    requires
        scale <= 255,
        i64::MIN <= unscaled <= i64::MAX,
        negative == (unscaled < 0),
    ensures
        parse_unsigned_spec(negative, unsigned_text(unscaled, scale)) == Some(
            Decimal { unscaled: unscaled as i64, scale: scale as u8 },
        ),
        unsigned_text(unscaled, scale).len() > 0,
        forall|i: int|
            0 <= i < unsigned_text(unscaled, scale).len() ==> is_numeral(
                #[trigger] unsigned_text(unscaled, scale)[i],
            ),
        is_digit(unsigned_text(unscaled, scale)[0]),
        is_digit(unsigned_text(unscaled, scale).last()),
{
    let padded = padded_digits(unscaled, scale);
    lemma_padded_digits(unscaled, scale);
    let cut = padded.len() - scale;
    let fraction = padded.skip(cut);
    let body = unsigned_text(unscaled, scale);
    assert forall|i: int| 0 <= i < body.len() implies is_numeral(#[trigger] body[i]) by {
        if i < cut {
            assert(body[i] == padded[i]);
        } else if i > cut {
            assert(body[i] == padded[i - 1]);
        }
    }
    assert forall|i: int| 0 <= i < cut implies CharClass::Digit.holds(#[trigger] body[i]) by {
        assert(body[i] == padded[i]);
    }
    assert(body[0] == padded[0]);
    if scale > 0 {
        assert(body[cut] == '.');
        assert(body.last() == padded.last());
    } else {
        assert(body =~= padded);
    }
    lemma_span_is(body, CharClass::Digit, cut);
    let frac_start = if scale > 0 {
        cut + 1
    } else {
        cut
    };
    let tail = body.skip(frac_start);
    if scale > 0 {
        assert(tail =~= fraction);
        assert forall|i: int| 0 <= i < scale implies CharClass::Digit.holds(#[trigger] tail[i]) by {
            assert(tail[i] == padded[cut + i]);
        }
        lemma_span_is(tail, CharClass::Digit, scale as int);
    }
    let f = if scale > 0 {
        scale as int
    } else {
        0
    };
    assert(body.skip(frac_start + f).len() == 0);
    assert(exponent_spec(body.skip(frac_start + f)) == Some(0int));
    let digits = body.subrange(0, cut) + body.subrange(frac_start, frac_start + f);
    assert(digits =~= padded);
    let one = pow10(0);
    assert(one == 1);
    assert(unscaled * one == unscaled) by (nonlinear_arith)
        requires
            one == 1,
    ;
    if scale > 0 {
        assert(rescaled(unscaled, scale, scale, Rounding::HalfEven) == Some(
            Decimal { unscaled: unscaled as i64, scale: scale as u8 },
        ));
        assert(finest(unscaled, scale, scale) == Some(
            Decimal { unscaled: unscaled as i64, scale: scale as u8 },
        ));
    }
    assert(decimal_from_parts(negative, abs(unscaled), 0 - f) == Some(
        Decimal { unscaled: unscaled as i64, scale: scale as u8 },
    ));
}

/// The text of a decimal is its sign and its unsigned text.
pub proof fn lemma_decimal_text_parts(unscaled: int, scale: nat)
    ensures
        decimal_text(unscaled, scale) == if unscaled < 0 {
            seq!['-'] + unsigned_text(unscaled, scale)
        } else {
            unsigned_text(unscaled, scale)
        },
{
    let padded = padded_digits(unscaled, scale);
    let cut = padded.len() - scale;
    let fraction = if scale > 0 {
        seq!['.'] + padded.skip(cut)
    } else {
        Seq::<char>::empty()
    };
    if unscaled < 0 {
        assert(seq!['-'] + padded.take(cut) + fraction =~= seq!['-'] + (padded.take(cut)
            + fraction));
    } else {
        assert(Seq::<char>::empty() + padded.take(cut) + fraction =~= padded.take(cut) + fraction);
    }
}

/// Reading the text of a decimal gives the decimal back, and the text is
/// the text of a number.
pub proof fn lemma_parse_decimal_text(d: Decimal)
    ensures
        parse_decimal_spec(d.text()) == Some(d),
        is_number_text(d.text()),
{
    let u = d.unscaled as int;
    let s = d.scale as nat;
    lemma_decimal_text_parts(u, s);
    lemma_parse_unsigned_text(u < 0, u, s);
    let body = unsigned_text(u, s);
    let text = d.text();
    if u < 0 {
        assert(text[0] == '-');
        assert(text.drop_first() =~= body);
        assert forall|i: int| 0 <= i < text.len() implies is_numeral(#[trigger] text[i]) by {
            if i > 0 {
                assert(text[i] == body[i - 1]);
            }
        }
    } else {
        assert(is_digit(text[0]));
    }
}

/// A multiple of the divisor, divided by it, is the factor, however it is
/// rounded.
pub proof fn lemma_round_div_exact(m: nat, d: nat, mode: Rounding)
    requires
        d > 0,
    ensures
        round_div(m * d, d, mode) == m,
{
    let n = m * d;
    assert(n == d * m) by (nonlinear_arith)
        requires
            n == m * d,
    ;
    vstd::arithmetic::div_mod::lemma_div_multiples_vanish(m as int, d as int);
    vstd::arithmetic::div_mod::lemma_mod_multiples_basic(m as int, d as int);
    assert(n / d == m);
    assert(n % d == 0);
}

/// A decimal times one, whichever way one is written, is the decimal, when
/// the product keeps as many digits after the point as the decimal has.
pub proof fn lemma_times_one(d: Decimal, zeros_of_one: nat, mode: Rounding)
    requires
        zeros_of_one <= 18,
    ensures
        rescaled(
            d.unscaled * pow10(zeros_of_one),
            d.scale as nat + zeros_of_one,
            d.scale as nat,
            mode,
        ) == Some(d),
{
    let p = pow10(zeros_of_one);
    crate::number::lemma_pow10_positive(zeros_of_one);
    let u = d.unscaled as int;
    if zeros_of_one == 0 {
        assert(pow10(0) == 1);
        assert(u * 1 == u);
    } else {
        if u < 0 {
            assert(-(u * p) == (-u) * p) by (nonlinear_arith);
            assert(u * p < 0) by (nonlinear_arith)
                requires
                    u < 0,
                    p >= 1,
            ;
            lemma_round_div_exact((-u) as nat, p, mode);
        } else {
            assert(u * p >= 0) by (nonlinear_arith)
                requires
                    u >= 0,
                    p >= 1,
            ;
            lemma_round_div_exact(u as nat, p, mode);
        }
    }
}

/// Whether two decimals have the same value, whatever the number of their
/// digits after the point.
pub open spec fn same_value(a: Decimal, b: Decimal) -> bool {
    a.unscaled * pow10(b.scale as nat) == b.unscaled * pow10(a.scale as nat)
}

/// A decimal brought to more digits after the point keeps its value.
pub proof fn lemma_rescale_keeps_value(d: Decimal, places: u8)
    requires
        d.scale <= places,
        d.rescale_spec(places) is Some,
    ensures
        same_value(d, d.rescale_spec(places)->0),
{
    let k = (places - d.scale) as nat;
    crate::number::lemma_pow10_add(d.scale as nat, k);
    let u = d.unscaled as int;
    let a = pow10(d.scale as nat);
    let b = pow10(k);
    assert(u * (a * b) == (u * b) * a) by (nonlinear_arith);
}

/// Ten times a number that is not zero has the digits of the number and a
/// zero.
pub proof fn lemma_digits_times_ten(m: nat, k: nat)
    requires
        m > 0,
    ensures
        nat_digits(m * pow10(k)) == nat_digits(m) + zeros(k),
    decreases k,
{
    if k == 0 {
        assert(pow10(0) == 1);
        assert(m * 1 == m);
        assert(nat_digits(m) + zeros(0) =~= nat_digits(m));
    } else {
        lemma_digits_times_ten(m, (k - 1) as nat);
        let less = m * pow10((k - 1) as nat);
        let more = m * pow10(k);
        crate::number::lemma_pow10_positive((k - 1) as nat);
        assert(more == less * 10 && less >= 1) by (nonlinear_arith)
            requires
                more == m * pow10(k),
                less == m * pow10((k - 1) as nat),
                pow10(k) == 10 * pow10((k - 1) as nat),
                pow10((k - 1) as nat) >= 1,
                m >= 1,
        ;
        assert(more / 10 == less && more % 10 == 0);
        assert(nat_digits(more) == nat_digits(less).push(digit_char(0)));
        assert(nat_digits(m) + zeros(k) =~= (nat_digits(m) + zeros((k - 1) as nat)).push('0'));
    }
}

/// The padded digits of a decimal that was brought to more digits after
/// the point are its own padded digits, and zeros.
pub proof fn lemma_padded_digits_scaled(unscaled: int, scale: nat, k: nat)
    ensures
        padded_digits(unscaled * pow10(k), scale + k) == padded_digits(unscaled, scale) + zeros(k),
{
    let p = pow10(k);
    crate::number::lemma_pow10_positive(k);
    let m = abs(unscaled);
    let scaled = unscaled * p;
    assert(abs(scaled) == m * p) by (nonlinear_arith)
        requires
            scaled == unscaled * p,
            m == (if unscaled < 0 {
                -unscaled
            } else {
                unscaled
            }),
            p >= 1,
    ;
    lemma_nat_digits(m);
    if m > 0 {
        lemma_digits_times_ten(m, k);
        let ds = nat_digits(m);
        if ds.len() <= scale {
            let z = zeros((scale + 1 - ds.len()) as nat);
            assert(z + (ds + zeros(k)) =~= (z + ds) + zeros(k));
        }
    } else {
        assert(m * p == 0) by (nonlinear_arith)
            requires
                m == 0,
        ;
        let ds = nat_digits(0);
        assert(ds =~= seq!['0']);
        assert(padded_digits(scaled, scale + k) =~= padded_digits(unscaled, scale) + zeros(k));
    }
}

/// Written with more digits after the point than it has, a decimal is
/// written as the decimal of the same value that has those digits.
pub proof fn lemma_fixed_text_padded(d: Decimal, places: nat)
    requires
        d.scale <= places,
    ensures
        fixed_text(d, places) == decimal_text(
            d.unscaled * pow10((places - d.scale) as nat),
            places,
        ),
{
    let k = (places - d.scale) as nat;
    let s = d.scale as nat;
    let u = d.unscaled as int;
    let p = pow10(k);
    crate::number::lemma_pow10_positive(k);
    let scaled = u * p;
    assert((scaled < 0) == (u < 0)) by (nonlinear_arith)
        requires
            scaled == u * p,
            p >= 1,
    ;
    lemma_padded_digits_scaled(u, s, k);
    lemma_padded_digits(u, s);
    let short = padded_digits(u, s);
    let long = padded_digits(scaled, places);
    let cut = short.len() - s;
    assert(long.len() - places == cut);
    assert(long.take(cut) =~= short.take(cut));
    assert(long.skip(cut) =~= short.skip(cut) + zeros(k));
    assert(fixed_text(d, places) =~= decimal_text(scaled, places));
}

/// Reading a decimal that was written with a fixed number of digits after
/// the point gives the decimal brought to that number of digits, where that
/// fits; and the text is the text of a number.
pub proof fn lemma_parse_fixed_text(d: Decimal, places: u8)
    requires
        d.rescale_spec(places) is Some,
    ensures
        parse_decimal_spec(fixed_text(d, places as nat)) == d.rescale_spec(places),
        is_number_text(fixed_text(d, places as nat)),
{
    let r = d.rescale_spec(places)->0;
    lemma_parse_decimal_text(r);
    if d.scale <= places {
        lemma_fixed_text_padded(d, places as nat);
    }
}

} // verus!
