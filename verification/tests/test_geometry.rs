use vasp_files::decimal::Decimal;
use vasp_files::geometry::{isqrt, mul_div, GeometryError};
use vasp_files::poscar::Lattice;

fn d(text: &str) -> Decimal {
    Decimal::parse(&text.chars().collect::<Vec<char>>()).unwrap()
}

fn row(x: &str, y: &str, z: &str) -> [Decimal; 3] {
    [d(x), d(y), d(z)]
}

fn float(x: Decimal) -> f64 {
    x.unscaled as f64 / 10f64.powi(x.scale as i32)
}

fn cube(edge: &str) -> Lattice {
    Lattice::new(row(edge, "0", "0"), row("0", edge, "0"), row("0", "0", edge))
}

#[test]
fn lengths_of_the_unit_cube_are_one() {
    let lengths = cube("1.0").lengths().unwrap();
    assert_eq!(lengths, [Decimal::new(1_000_000_000_000_000, 15); 3]);
    assert_eq!(lengths[0].to_string(), "1.000000000000000");
}

#[test]
fn lengths_are_rounded_to_the_nearest_digit() {
    let l = Lattice::new(row("3", "4", "0"), row("1", "1", "1"), row("0", "0", "0.000000001"));
    let lengths = l.lengths().unwrap();
    assert_eq!(lengths[0], Decimal::new(5_000_000_000_000_000, 15));
    // the square root of 3 is 1.7320508075688772935...
    assert_eq!(lengths[1], Decimal::new(1_732_050_807_568_877, 15));
    assert_eq!(lengths[2], Decimal::new(1_000_000, 15));
    let m = Lattice::new(row("1", "1", "0"), row("-2", "0", "0"), row("0", "0", "0"));
    let lengths = m.lengths().unwrap();
    // the square root of 2 is 1.4142135623730950488...
    assert_eq!(lengths[0], Decimal::new(1_414_213_562_373_095, 15));
    assert_eq!(lengths[1], Decimal::new(2_000_000_000_000_000, 15));
    assert_eq!(lengths[2], Decimal::new(0, 15));
}

#[test]
fn volume_is_the_magnitude_of_the_determinant() {
    // as many digits after the point as 64 bits hold
    assert_eq!(cube("2").volume(), Ok(Decimal::new(8_000_000_000_000_000_000, 18)));
    assert_eq!(cube("3").volume(), Ok(Decimal::new(2_700_000_000_000_000_000, 17)));
    let left = Lattice::new(row("0", "1", "0"), row("1", "0", "0"), row("0", "0", "1"));
    assert_eq!(left.volume(), Ok(Decimal::new(1_000_000_000_000_000_000, 18)));
    let slab = Lattice::new(row("5.543717", "0", "0"), row("2.7718585", "4.801", "0"), row("0", "0", "24.05285"));
    // 5.543717 * 4.801 * 24.05285 = 640.17587072200345
    assert_eq!(slab.volume(), Ok(Decimal::new(6_401_758_707_220_034_500, 16)));
    let flat = Lattice::new(row("1", "2", "3"), row("2", "4", "6"), row("0", "1", "0"));
    assert_eq!(flat.volume(), Ok(Decimal::new(0, 27)));
    assert_eq!(cube("0.0001").volume(), Ok(Decimal::new(1_000_000_000_000_000, 27)));
    assert_eq!(cube("0.000000001").volume(), Ok(Decimal::new(1, 27)));
    assert_eq!(cube("2000").volume(), Ok(Decimal::new(8_000_000_000_000_000_000, 9)));
    assert_eq!(cube("2199.023255552").volume(), Ok(Decimal::new(1_063_382_396_627_932_698, 8)));
}

#[test]
fn reciprocal_of_a_cube() {
    // 2π = 6.283185307179586476...
    let r = cube("1").reciprocal().unwrap();
    let two_pi = Decimal::new(6_283_185_307_179_586, 15);
    let zero = Decimal::new(0, 15);
    assert_eq!(r.a, [two_pi, zero, zero]);
    assert_eq!(r.b, [zero, two_pi, zero]);
    assert_eq!(r.c, [zero, zero, two_pi]);
    // π = 3.141592653589793238...
    let r = cube("2").reciprocal().unwrap();
    assert_eq!(r.a[0], Decimal::new(3_141_592_653_589_793, 15));
    // 2π / 3 = 2.094395102393195492...
    let r = cube("3").reciprocal().unwrap();
    assert_eq!(r.c[2], Decimal::new(2_094_395_102_393_195, 15));
}

#[test]
fn reciprocal_of_a_cell_of_edges_one_two_and_four() {
    let pi = std::f64::consts::PI;
    let l = Lattice::new(row("1.0", "0.0", "0.0"), row("0.0", "2.0", "0.0"), row("0.0", "0.0", "4.0"));
    let r = l.reciprocal().unwrap();
    let want = [[2.0 * pi, 0.0, 0.0], [0.0, pi, 0.0], [0.0, 0.0, pi / 2.0]];
    for (got, want) in [r.a, r.b, r.c].iter().zip(want.iter()) {
        for k in 0..3 {
            assert!((float(got[k]) - want[k]).abs() < 1e-12, "{:?} {:?}", got, want);
        }
    }
    assert_eq!(r.a[0], Decimal::new(6_283_185_307_179_586, 15));
    assert_eq!(r.b[1], Decimal::new(3_141_592_653_589_793, 15));
    assert_eq!(r.c[2], Decimal::new(1_570_796_326_794_897, 15));
}

#[test]
fn lengths_of_a_sheared_cell() {
    let l = Lattice::new(row("1", "0", "0"), row("1", "1", "0"), row("0", "0", "1"));
    let lengths = l.lengths().unwrap();
    assert!((float(lengths[1]) - 2f64.sqrt()).abs() < 1e-12);
    assert_eq!(lengths[1], Decimal::new(1_414_213_562_373_095, 15));
    // the lengths of its reciprocal vectors: 2π√2, 2π and 2π
    let r = l.reciprocal().unwrap().lengths().unwrap();
    assert_eq!(r, [
        Decimal::new(8_885_765_876_316_732, 15),
        Decimal::new(6_283_185_307_179_586, 15),
        Decimal::new(6_283_185_307_179_586, 15),
    ]);
    assert!((float(r[0]) - 2.0 * std::f64::consts::PI * 2f64.sqrt()).abs() < 1e-12);
}

#[test]
fn reciprocal_uses_the_magnitude_of_the_volume() {
    let left = Lattice::new(row("0", "1", "0"), row("1", "0", "0"), row("0", "0", "1"));
    let r = left.reciprocal().unwrap();
    let zero = Decimal::new(0, 15);
    let minus = Decimal::new(-6_283_185_307_179_586, 15);
    // b x c = (0, -1, 0), c x a = (-1, 0, 0), a x b = (0, 0, -1)
    assert_eq!(r.a, [zero, minus, zero]);
    assert_eq!(r.b, [minus, zero, zero]);
    assert_eq!(r.c, [zero, zero, minus]);
}

#[test]
fn reciprocal_agrees_with_floating_point() {
    let l = Lattice::new(row("5.543717", "0", "0"), row("2.7718585", "4.801", "0"), row("0.3", "-0.7", "24.05285"));
    let r = l.reciprocal().unwrap();
    let a = l.a.map(float);
    let b = l.b.map(float);
    let c = l.c.map(float);
    let cross = |u: [f64; 3], v: [f64; 3]| [u[1] * v[2] - u[2] * v[1], u[2] * v[0] - u[0] * v[2], u[0] * v[1] - u[1] * v[0]];
    let bc = cross(b, c);
    let volume = (a[0] * bc[0] + a[1] * bc[1] + a[2] * bc[2]).abs();
    let scale = 2.0 * std::f64::consts::PI / volume;
    for (got, want) in [(r.a, cross(b, c)), (r.b, cross(c, a)), (r.c, cross(a, b))] {
        for k in 0..3 {
            assert!((float(got[k]) - scale * want[k]).abs() < 1e-12, "{:?} {:?}", got, want);
        }
    }
}

#[test]
fn cell_without_volume_has_no_reciprocal() {
    let flat = Lattice::new(row("1", "2", "3"), row("2", "4", "6"), row("0", "1", "0"));
    assert_eq!(flat.reciprocal(), Err(GeometryError::DegenerateLattice));
    assert_eq!(cube("0").reciprocal(), Err(GeometryError::DegenerateLattice));
    assert_eq!(cube("0.0000000001").reciprocal(), Err(GeometryError::DegenerateLattice));
    // a volume so small that a reciprocal vector cannot be held
    let thin = Lattice::new(row("5", "5", "0.000000001"), row("1", "0", "0"), row("0", "1", "0"));
    assert_eq!(thin.reciprocal(), Err(GeometryError::DegenerateLattice));
    assert_eq!(cube("0.0001").reciprocal(), Err(GeometryError::DegenerateLattice));
    // a cube of a thousandth has reciprocal vectors that can still be held
    let r = cube("0.001").reciprocal().unwrap();
    assert_eq!(r.a[0], Decimal::new(6_283_185_307_179_586_477, 15));
}

#[test]
fn components_beyond_the_range() {
    assert_eq!(cube("2199.023255552").lengths(), Ok([Decimal::new(2_199_023_255_552_000_000, 15); 3]));
    assert!(cube("2199.023255552").reciprocal().is_ok());
    assert_eq!(cube("2199.023255553").reciprocal(), Err(GeometryError::OutOfRange));
    assert_eq!(cube("2199.023255553").volume(), Err(GeometryError::OutOfRange));
    assert_eq!(cube("-2199.023255553").reciprocal(), Err(GeometryError::OutOfRange));
    // lengths are held up to what 64 bits hold of fifteen digits after the point
    assert_eq!(cube("9223").lengths(), Ok([Decimal::new(9_223_000_000_000_000_000, 15); 3]));
    assert_eq!(cube("9224").lengths(), Err(GeometryError::OutOfRange));
    assert_eq!(cube("1e12").lengths(), Err(GeometryError::OutOfRange));
    let long = Lattice::new(row("6000", "6000", "6000"), row("1", "0", "0"), row("0", "1", "0"));
    assert_eq!(long.lengths(), Err(GeometryError::OutOfRange));
}

#[test]
fn integer_square_root() {
    for (n, r) in [(0u128, 0u128), (1, 1), (2, 1), (3, 1), (4, 2), (8, 2), (9, 3), (99, 9), (100, 10), (u128::MAX, u64::MAX as u128)] {
        assert_eq!(isqrt(n), r);
    }
    let big = 1u128 << 100;
    assert_eq!(isqrt(big), 1u128 << 50);
    assert_eq!(isqrt(big - 1), (1u128 << 50) - 1);
}

#[test]
fn product_is_divided_without_overflow() {
    assert_eq!(mul_div(0, 5, 7), (0, 0));
    assert_eq!(mul_div(10, 5, 7), (7, 1));
    assert_eq!(mul_div(u64::MAX, 0, 1), (0, 0));
    let d = (1u128 << 126) - 1;
    let x = d - 1;
    let (q, r) = mul_div(u64::MAX, x, d);
    // a * (d - 1) = (a - 1) * d + (d - a)
    assert_eq!(q, u64::MAX as u128 - 1);
    assert_eq!(r, d - u64::MAX as u128);
}
