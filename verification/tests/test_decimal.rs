use vasp_files::decimal::Decimal;
use vasp_files::number::{parse_i64, parse_usize, Rounding};

fn chars(s: &str) -> Vec<char> {
    s.chars().collect()
}

fn parse(s: &str) -> Option<Decimal> {
    Decimal::parse(&chars(s))
}

fn fixed(d: Decimal, places: u8) -> String {
    let mut out = Vec::new();
    d.push_fixed(&mut out, places);
    out.into_iter().collect()
}

#[test]
fn literal_keeps_every_digit() {
    assert_eq!(parse("1.50"), Some(Decimal::new(150, 2)));
    assert_eq!(parse("1.5"), Some(Decimal::new(15, 1)));
    assert_eq!(parse("520"), Some(Decimal::new(520, 0)));
    assert_eq!(parse("-0.005"), Some(Decimal::new(-5, 3)));
    assert_eq!(parse("+.5"), Some(Decimal::new(5, 1)));
    assert_eq!(parse("3."), Some(Decimal::new(3, 0)));
    assert_eq!(parse("0007"), Some(Decimal::new(7, 0)));
}

#[test]
fn literal_with_an_exponent() {
    assert_eq!(parse("1E-6"), Some(Decimal::new(1, 6)));
    assert_eq!(parse("1e5"), Some(Decimal::new(100000, 0)));
    assert_eq!(parse("1.5e1"), Some(Decimal::new(15, 0)));
    assert_eq!(parse("1.50e1"), Some(Decimal::new(150, 1)));
    assert_eq!(parse("-2.5E+2"), Some(Decimal::new(-250, 0)));
    assert_eq!(parse("0e30"), Some(Decimal::new(0, 0)));
    assert_eq!(parse("1e-255"), Some(Decimal::new(1, 255)));
}

#[test]
fn what_is_no_literal() {
    for s in ["", "+", "-", ".", "e5", "1e", "1e+", "1.2.3", "1 ", " 1", "1,5", "0x10", "inf", "nan", "1e5.0", "--1"] {
        assert_eq!(parse(s), None, "{:?}", s);
    }
}

#[test]
fn literal_out_of_range() {
    assert_eq!(parse("9223372036854775807"), Some(Decimal::new(i64::MAX, 0)));
    assert_eq!(parse("-9223372036854775808"), Some(Decimal::new(i64::MIN, 0)));
    assert_eq!(parse("9223372036854775808"), None);
    assert_eq!(parse("-9223372036854775809"), None);
    assert_eq!(parse("1e19"), None);
    assert_eq!(parse("1e30"), None);
    assert_eq!(parse("1e10000"), None);
    assert_eq!(parse("1e9999"), None);
    assert_eq!(parse("0e9999"), Some(Decimal::new(0, 0)));
    // more digits than 127 bits hold
    assert_eq!(parse("0.1234567890123456789012345678901234567890"), None);
}

#[test]
fn literal_keeps_the_digits_after_the_point_that_fit() {
    assert_eq!(parse("950.0000000000000000"), Some(Decimal::new(950_000_000_000_000_000, 15)));
    assert_eq!(parse("1.0000000000000000000"), Some(Decimal::new(1_000_000_000_000_000_000, 18)));
    assert_eq!(parse("0.33333333333333333333333"), Some(Decimal::new(3_333_333_333_333_333_333, 19)));
    assert_eq!(parse("0.66666666666666666666666"), Some(Decimal::new(6_666_666_666_666_666_667, 19)));
    assert_eq!(parse("-9.2233720368547758085"), Some(Decimal::new(i64::MIN, 18)));
    assert_eq!(parse("-9.2233720368547758095"), Some(Decimal::new(-922_337_203_685_477_581, 17)));
    assert_eq!(parse("9.223372036854775807"), Some(Decimal::new(i64::MAX, 18)));
    assert_eq!(parse("9.2233720368547758075"), Some(Decimal::new(922_337_203_685_477_581, 17)));
    // ties go to the even neighbour
    assert_eq!(parse("1234567890123456789.5"), Some(Decimal::new(1_234_567_890_123_456_790, 0)));
    assert_eq!(parse("1234567890123456788.5"), Some(Decimal::new(1_234_567_890_123_456_788, 0)));
    // no more than 255 digits after the point
    assert_eq!(parse("1e-255"), Some(Decimal::new(1, 255)));
    assert_eq!(parse("1e-256"), Some(Decimal::new(0, 255)));
    assert_eq!(parse("5e-256"), Some(Decimal::new(0, 255)));
    assert_eq!(parse("6e-256"), Some(Decimal::new(1, 255)));
    assert_eq!(parse("15e-256"), Some(Decimal::new(2, 255)));
    assert_eq!(parse("1e-9999"), Some(Decimal::new(0, 255)));
    assert_eq!(parse("-1e-9999"), Some(Decimal::new(0, 255)));
}

#[test]
fn plain_text() {
    assert_eq!(Decimal::new(150, 2).to_string(), "1.50");
    assert_eq!(Decimal::new(5, 3).to_string(), "0.005");
    assert_eq!(Decimal::new(-5, 3).to_string(), "-0.005");
    assert_eq!(Decimal::new(7, 0).to_string(), "7");
    assert_eq!(Decimal::new(0, 0).to_string(), "0");
    assert_eq!(Decimal::new(0, 2).to_string(), "0.00");
    assert_eq!(Decimal::new(1, 6).to_string(), "0.000001");
    assert_eq!(Decimal::new(i64::MIN, 0).to_string(), "-9223372036854775808");
    assert_eq!(Decimal::new(i64::MIN, 19).to_string(), "-0.9223372036854775808");
}

#[test]
fn plain_text_reads_back() {
    for d in [
        Decimal::new(150, 2),
        Decimal::new(-5, 3),
        Decimal::new(0, 0),
        Decimal::new(0, 4),
        Decimal::new(i64::MAX, 7),
        Decimal::new(i64::MIN, 255),
        Decimal::new(1, 255),
    ] {
        assert_eq!(parse(&d.to_string()), Some(d));
    }
}

#[test]
fn fixed_text_pads_and_rounds() {
    assert_eq!(fixed(Decimal::new(5, 1), 6), "0.500000");
    assert_eq!(fixed(Decimal::new(3, 0), 6), "3.000000");
    assert_eq!(fixed(Decimal::new(3, 0), 0), "3");
    assert_eq!(fixed(Decimal::new(-1234567894, 9), 6), "-1.234568");
    assert_eq!(fixed(Decimal::new(1234567, 6), 6), "1.234567");
    // ties go to the even neighbour
    assert_eq!(fixed(Decimal::new(25, 1), 0), "2");
    assert_eq!(fixed(Decimal::new(35, 1), 0), "4");
    assert_eq!(fixed(Decimal::new(-25, 1), 0), "-2");
    assert_eq!(fixed(Decimal::new(5, 7), 6), "0.000000");
    assert_eq!(fixed(Decimal::new(15, 7), 6), "0.000002");
    assert_eq!(fixed(Decimal::new(1, 200), 6), "0.000000");
    assert_eq!(fixed(Decimal::new(i64::MAX, 0), 2), "9223372036854775807.00");
}

#[test]
fn rescale_is_exact_upwards_and_rounds_downwards() {
    assert_eq!(Decimal::new(15, 1).rescale(9), Some(Decimal::new(1500000000, 9)));
    assert_eq!(Decimal::new(1234567894, 9).rescale(6), Some(Decimal::new(1234568, 6)));
    assert_eq!(Decimal::new(-15, 1).rescale(0), Some(Decimal::new(-2, 0)));
    assert_eq!(Decimal::new(i64::MAX, 0).rescale(1), None);
    assert_eq!(Decimal::new(0, 0).rescale(255), Some(Decimal::new(0, 255)));
    assert_eq!(Decimal::new(i64::MAX, 255).rescale(0), Some(Decimal::new(0, 0)));
}

#[test]
fn product_is_rounded_to_the_places_asked_for() {
    let a = Decimal::new(38669745922, 10);
    let one = Decimal::new(10, 1);
    assert_eq!(a.times(&one, 9, Rounding::HalfEven), Some(Decimal::new(3866974592, 9)));
    let b = Decimal::new(-25, 1);
    let c = Decimal::new(3, 0);
    assert_eq!(b.times(&c, 0, Rounding::HalfEven), Some(Decimal::new(-8, 0)));
    assert_eq!(b.times(&c, 0, Rounding::HalfAwayFromZero), Some(Decimal::new(-8, 0)));
    let half = Decimal::new(5, 1);
    assert_eq!(half.times(&c, 0, Rounding::HalfEven), Some(Decimal::new(2, 0)));
    assert_eq!(half.times(&c, 0, Rounding::HalfAwayFromZero), Some(Decimal::new(2, 0)));
    let five = Decimal::new(5, 0);
    assert_eq!(half.times(&five, 0, Rounding::HalfEven), Some(Decimal::new(2, 0)));
    assert_eq!(half.times(&five, 0, Rounding::HalfAwayFromZero), Some(Decimal::new(3, 0)));
    let big = Decimal::new(i64::MAX, 0);
    assert_eq!(big.times(&big, 0, Rounding::HalfEven), None);
    assert_eq!(big.times(&c, 3, Rounding::HalfEven), None);
}

#[test]
fn integers_are_read_as_the_standard_library_reads_them() {
    for s in ["0", "1", "-1", "+7", "007", "-0", "9223372036854775807", "-9223372036854775808", "9223372036854775808", "", "+", "-", "1.0", "1e3", " 1", "1_000", "٣"] {
        assert_eq!(parse_i64(&chars(s)), s.parse::<i64>().ok(), "{:?}", s);
        assert_eq!(parse_usize(&chars(s)), s.parse::<usize>().ok(), "{:?}", s);
    }
}

#[test]
fn literals_are_those_of_the_standard_library() {
    // numbers small enough to be held; the standard library also reads
    // `inf` and `nan`, which no decimal holds
    let pieces = ["", "+", "-", "0", "7", "12", ".", "0.", ".5", "1.5", "1..5", "e", "E", "e5", "1e5", "1E-5", "1e+5", "1e", "1e+", "1.e2", ".e1", "+.5e-3", "1_0", "1 ", " 1", "1e1.5", "--1", "+-1", "0x1", "١", "1e0005", "00.100"];
    for a in pieces {
        for b in ["", "0", "e2", ".", "5"] {
            let s = format!("{}{}", a, b);
            let float = s.parse::<f64>();
            if matches!(float, Ok(x) if x.abs() >= 1e18) {
                assert_eq!(parse(&s), None, "{:?}", s);
                continue;
            }
            assert_eq!(parse(&s).is_some(), float.is_ok(), "{:?}", s);
            if let (Some(d), Ok(x)) = (parse(&s), float) {
                let value = d.unscaled as f64 / 10f64.powi(d.scale as i32);
                assert!((value - x).abs() <= 1e-9 * x.abs(), "{:?}", s);
            }
        }
    }
}
