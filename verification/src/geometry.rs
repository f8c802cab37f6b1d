//! The geometry of a cell in exact arithmetic: volume, reciprocal cell and
//! lengths. Each is worked out in integers and rounded once: the volume to
//! as many digits after the point as 64 bits hold, reciprocal vectors and
//! lengths to fifteen.

use vstd::prelude::*;
use crate::decimal::{abs, finest, finest_fit, signed, Decimal};
use crate::number::{round_div, round_div_signed, Rounding};
use crate::poscar::types::{Lattice, PLACES};

verus! {

/// The largest magnitude of a component of a lattice vector, in units of the
/// ninth digit after the point, for which the geometry is worked out: 2^41,
/// which is about 2199.
pub const MAX_UNITS: i64 = 0x200_0000_0000;

/// The number of digits after the point of reciprocal vectors and of
/// lengths.
pub const FINE_PLACES: u8 = 15;

/// How many units of the fifteenth digit after the point make one of the
/// ninth.
pub const FINE: u64 = 1_000_000;

/// Twice π in units of the eighteenth digit after the point.
pub const TWO_PI: u64 = 6_283_185_307_179_586_477;

/// Why the geometry of a cell was not worked out.
#[derive(Debug, Clone, Copy, PartialEq, Eq, Structural)]
pub enum GeometryError {
    /// A component of a lattice vector, or the volume, is too large.
    OutOfRange,
    /// The cell has no volume, or so little that its reciprocal cell cannot
    /// be held.
    DegenerateLattice,
}

/// The largest integer whose square is at most `n`.
pub open spec fn root_floor(n: nat) -> nat
    decreases n,
{
    if n == 0 {
        0
    } else {
        let r = 2 * root_floor(n / 4);
        if (r + 1) * (r + 1) <= n {
            r + 1
        } else {
            r
        }
    }
}

/// The integer nearest to the square root of `n`.
pub open spec fn root_nearest(n: nat) -> nat {
    let s = root_floor(n);
    if n - s * s > s {
        s + 1
    } else {
        s
    }
}

/// `root_floor(n)` is the largest integer whose square is at most `n`.
pub proof fn lemma_root_floor(n: nat)
    ensures
        root_floor(n) * root_floor(n) <= n < (root_floor(n) + 1) * (root_floor(n) + 1),
    decreases n,
{
    if n > 0 {
        let q = n / 4;
        lemma_root_floor(q);
        let h = root_floor(q);
        let r = 2 * h;
        let s = root_floor(n);
        assert(4 * q <= n < 4 * q + 4);
        assert(h * h <= q);
        assert(q + 1 <= (h + 1) * (h + 1));
        assert(r * r == 4 * (h * h)) by (nonlinear_arith)
            requires
                r == 2 * h,
        ;
        assert((r + 2) * (r + 2) == 4 * ((h + 1) * (h + 1))) by (nonlinear_arith)
            requires
                r == 2 * h,
        ;
        assert(r * r <= n);
        assert(n < (r + 2) * (r + 2));
        if (r + 1) * (r + 1) <= n {
            assert(s == r + 1);
            assert(s * s <= n);
            assert(s + 1 == r + 2);
            assert(n < (s + 1) * (s + 1));
        } else {
            assert(s == r);
            assert(s * s <= n);
            assert(n < (s + 1) * (s + 1));
        }
    } else {
        assert(n == 0);
        let z = root_floor(n);
        assert(z == 0);
        assert(z * z == 0);
        assert(z + 1 == 1);
        assert((z + 1) * (z + 1) == 1);
    }
}

/// `root_nearest(n)` is the integer nearest to the square root of `n`: the
/// root lies less than a half above it and no more than a half below it.
pub proof fn lemma_root_nearest(n: nat)
    ensures
        4 * n < (2 * root_nearest(n) + 1) * (2 * root_nearest(n) + 1),
        root_nearest(n) > 0 ==> (2 * root_nearest(n) - 1) * (2 * root_nearest(n) - 1) <= 4 * n,
{
    lemma_root_floor(n);
    let s = root_floor(n);
    let r = root_nearest(n);
    if n - s * s > s {
        assert(r == s + 1);
        assert((2 * r - 1) * (2 * r - 1) == 4 * (s * s) + 4 * s + 1) by (nonlinear_arith)
            requires
                r == s + 1,
        ;
        assert((2 * r + 1) * (2 * r + 1) > 4 * ((s + 1) * (s + 1))) by (nonlinear_arith)
            requires
                r == s + 1,
        ;
    } else {
        assert(r == s);
        assert((2 * r + 1) * (2 * r + 1) == 4 * (s * s) + 4 * s + 1) by (nonlinear_arith)
            requires
                r == s,
        ;
        if r > 0 {
            assert((2 * r - 1) * (2 * r - 1) <= 4 * (s * s)) by (nonlinear_arith)
                requires
                    r == s,
                    r > 0,
            ;
        }
    }
}

/// Only one integer has a square that is at most `n` while the square of
/// the next is more.
pub proof fn lemma_root_unique(n: nat, s: nat, t: nat)
    requires
        s * s <= n < (s + 1) * (s + 1),
        t * t <= n < (t + 1) * (t + 1),
    ensures
        s == t,
{
    if s < t {
        assert((s + 1) * (s + 1) <= t * t) by (nonlinear_arith)
            requires
                s + 1 <= t,
        ;
    } else if t < s {
        assert((t + 1) * (t + 1) <= s * s) by (nonlinear_arith)
            requires
                t + 1 <= s,
        ;
    }
}

/// The largest integer whose square is at most `n`.
pub fn isqrt(n: u128) -> (r: u128)
    ensures
        r == root_floor(n as nat),
        r < 0x1_0000_0000_0000_0000,
{
    let mut lo: u128 = 0;
    let mut hi: u128 = 0x1_0000_0000_0000_0000;
    assert(hi * hi > n) by (nonlinear_arith)
        requires
            hi == 0x1_0000_0000_0000_0000,
            n <= u128::MAX,
    ;
    while hi - lo > 1
        invariant
            lo < hi <= 0x1_0000_0000_0000_0000,
            lo * lo <= n < hi * hi,
        decreases hi - lo,
    {
        let mid = lo + (hi - lo) / 2;
        assert(mid * mid < 0x1_0000_0000_0000_0000 * 0x1_0000_0000_0000_0000) by (nonlinear_arith)
            requires
                mid < 0x1_0000_0000_0000_0000,
        ;
        if mid * mid <= n {
            lo = mid;
        } else {
            hi = mid;
        }
    }
    proof {
        lemma_root_floor(n as nat);
        lemma_root_unique(n as nat, lo as nat, root_floor(n as nat));
    }
    lo
}

/// A quotient is no more than the factor of a product whose other factor is
/// no more than the divisor.
pub proof fn lemma_quotient_bound(k: nat, x: nat, d: nat, q: nat, r: nat)
    requires
        k * x == q * d + r,
        x <= d,
        d > 0,
    ensures
        q <= k,
{
    if q > k {
        assert(q * d >= (k + 1) * d) by (nonlinear_arith)
            requires
                q >= k + 1,
                d > 0,
        ;
        assert((k + 1) * d > k * x) by (nonlinear_arith)
            requires
                x <= d,
                d > 0,
        ;
    }
}

/// The quotient and the remainder of `a * x` by `d`.
pub fn mul_div(a: u64, x: u128, d: u128) -> (r: (u128, u128))
    requires
        0 < d < 0x4000_0000_0000_0000_0000_0000_0000_0000,
        x < d,
    ensures
        a * x == r.0 * d + r.1,
        r.1 < d,
        r.0 <= a,
{
    let mut t: u64 = a;
    let ghost mut m: nat = 1;
    let ghost mut low: nat = 0;
    let mut qa: u128 = 0;
    let mut ra: u128 = 0;
    let mut qp: u128 = 0;
    let mut rp: u128 = x;
    assert(0 * x == 0 * d + 0);
    assert(1 * x == 0 * d + x);
    while t > 0
        invariant
            0 < d < 0x4000_0000_0000_0000_0000_0000_0000_0000,
            x < d,
            a == t * m + low,
            m >= 1,
            low * x == qa * d + ra,
            m * x == qp * d + rp,
            ra < d,
            rp < d,
        decreases t,
    {
        proof {
            lemma_quotient_bound(low, x as nat, d as nat, qa as nat, ra as nat);
            lemma_quotient_bound(m, x as nat, d as nat, qp as nat, rp as nat);
            assert(m <= a) by (nonlinear_arith)
                requires
                    a == t * m + low,
                    t >= 1,
                    m >= 1,
            ;
        }
        let ghost t0 = t;
        let ghost m0 = m;
        let ghost low0 = low;
        let ghost bit: nat = (t % 2) as nat;
        assert(t0 == 2 * (t0 / 2) + bit);
        if t % 2 == 1 {
            let ghost qa0 = qa;
            let ghost ra0 = ra;
            qa = qa + qp;
            ra = ra + rp;
            proof {
                low = low + m;
                assert(low == low0 + bit * m0) by (nonlinear_arith)
                    requires
                        low == low0 + m0,
                        bit == 1,
                ;
                assert(low * x == qa * d + ra) by (nonlinear_arith)
                    requires
                        low == low0 + m,
                        low0 * x == qa0 * d + ra0,
                        m * x == qp * d + rp,
                        qa == qa0 + qp,
                        ra == ra0 + rp,
                ;
            }
            if ra >= d {
                let ghost qa1 = qa;
                let ghost ra1 = ra;
                ra = ra - d;
                proof {
                    lemma_quotient_bound(low, x as nat, d as nat, qa1 as nat, ra1 as nat);
                }
                qa = qa + 1;
                assert(low * x == qa * d + ra) by (nonlinear_arith)
                    requires
                        low * x == qa1 * d + ra1,
                        qa == qa1 + 1,
                        ra == ra1 - d,
                ;
            }
        }
        proof {
            if bit == 0 {
                assert(low == low0 + bit * m0) by (nonlinear_arith)
                    requires
                        low == low0,
                        bit == 0,
                ;
            }
        }
        t = t / 2;
        let ghost qp0 = qp;
        let ghost rp0 = rp;
        qp = qp * 2;
        rp = rp * 2;
        proof {
            m = 2 * m;
            assert(m * x == qp * d + rp) by (nonlinear_arith)
                requires
                    m == 2 * m0,
                    m0 * x == qp0 * d + rp0,
                    qp == 2 * qp0,
                    rp == 2 * rp0,
            ;
            assert(a == t * m + low) by (nonlinear_arith)
                requires
                    a == t0 * m0 + low0,
                    m == 2 * m0,
                    t0 == 2 * t + bit,
                    low == low0 + bit * m0,
            ;
        }
        if rp >= d {
            let ghost qp1 = qp;
            let ghost rp1 = rp;
            rp = rp - d;
            qp = qp + 1;
            assert(m * x == qp * d + rp) by (nonlinear_arith)
                requires
                    m * x == qp1 * d + rp1,
                    qp == qp1 + 1,
                    rp == rp1 - d,
            ;
        }
    }
    proof {
        assert(low == a) by (nonlinear_arith)
            requires
                a == t * m + low,
                t == 0,
        ;
        lemma_quotient_bound(low, x as nat, d as nat, qa as nat, ra as nat);
    }
    (qa, ra)
}

/// The value of `d` in units of the ninth digit after the point, where its
/// magnitude is at most `MAX_UNITS`.
pub open spec fn units_of(d: Decimal) -> Option<int> {
    match d.rescale_spec(PLACES) {
        Some(r) => if -MAX_UNITS <= r.unscaled <= MAX_UNITS {
            Some(r.unscaled as int)
        } else {
            None
        },
        None => None,
    }
}

/// The three components of a vector in units of the ninth digit.
pub open spec fn row_units(row: Seq<Decimal>) -> Option<Seq<int>> {
    match (units_of(row[0]), units_of(row[1]), units_of(row[2])) {
        (Some(x), Some(y), Some(z)) => Some(seq![x, y, z]),
        _ => None,
    }
}

/// The three vectors of a cell in units of the ninth digit.
pub open spec fn lattice_units(l: Lattice) -> Option<Seq<Seq<int>>> {
    match (row_units(l.a@), row_units(l.b@), row_units(l.c@)) {
        (Some(a), Some(b), Some(c)) => Some(seq![a, b, c]),
        _ => None,
    }
}

/// The vector product.
pub open spec fn cross(b: Seq<int>, c: Seq<int>) -> Seq<int> {
    seq![b[1] * c[2] - b[2] * c[1], b[2] * c[0] - b[0] * c[2], b[0] * c[1] - b[1] * c[0]]
}

/// The scalar product.
pub open spec fn dot(a: Seq<int>, b: Seq<int>) -> int {
    a[0] * b[0] + a[1] * b[1] + a[2] * b[2]
}

/// The determinant of the matrix of rows `a`, `b` and `c`.
pub open spec fn determinant(a: Seq<int>, b: Seq<int>, c: Seq<int>) -> int {
    dot(a, cross(b, c))
}

/// The volume of a cell: the magnitude of the determinant of its vectors,
/// which has twenty-seven digits after the point, rounded half to even to
/// as many of them as fit.
#[verifier::opaque]
pub open spec fn volume_spec(l: Lattice) -> Result<Decimal, GeometryError> {
    match lattice_units(l) {
        None => Err(GeometryError::OutOfRange),
        Some(u) => match finest(abs(determinant(u[0], u[1], u[2])) as int, 27, 27) {
            Some(v) => Ok(v),
            None => Err(GeometryError::OutOfRange),
        },
    }
}

/// A component of a reciprocal lattice vector: 2π times the component `x`
/// of a vector product over the volume, rounded half to even at the
/// fifteenth digit, where that fits.
pub open spec fn reciprocal_component(x: int, volume: nat) -> Option<Decimal> {
    let v = round_div_signed(TWO_PI * (x * FINE), volume, Rounding::HalfEven);
    if i64::MIN <= v <= i64::MAX {
        Some(Decimal { unscaled: v as i64, scale: FINE_PLACES })
    } else {
        None
    }
}

/// A component of a reciprocal lattice vector, in units of the fifteenth
/// digit, differs by no more than half a unit from the quotient that it
/// rounds: 2π times the component of the vector product over the volume.
pub proof fn lemma_reciprocal_component_nearest(x: int, volume: nat)
    requires
        volume > 0,
        reciprocal_component(x, volume) is Some,
    ensures
        ({
            let v = reciprocal_component(x, volume)->0.unscaled;
            &&& 2 * (v * volume - TWO_PI * (x * FINE)) <= volume
            &&& 2 * (TWO_PI * (x * FINE) - v * volume) <= volume
        }),
{
    let n = TWO_PI * (x * FINE);
    let v = round_div_signed(n, volume, Rounding::HalfEven);
    if n < 0 {
        let m = (-n) as nat;
        crate::number::lemma_round_div_nearest(m, volume, Rounding::HalfEven);
        let q = round_div(m, volume, Rounding::HalfEven);
        assert(v * volume == -(q * volume)) by (nonlinear_arith)
            requires
                v == -(q as int),
        ;
    } else {
        crate::number::lemma_round_div_nearest(n as nat, volume, Rounding::HalfEven);
    }
}

/// A reciprocal lattice vector: 2π times a vector product over the volume.
pub open spec fn reciprocal_row(v: Seq<int>, volume: nat) -> Option<Seq<Decimal>> {
    match (
        reciprocal_component(v[0], volume),
        reciprocal_component(v[1], volume),
        reciprocal_component(v[2], volume),
    ) {
        (Some(x), Some(y), Some(z)) => Some(seq![x, y, z]),
        _ => None,
    }
}

/// The reciprocal cell: of the vectors `a`, `b` and `c` with the volume `V`,
/// `2π/V · b×c`, `2π/V · c×a` and `2π/V · a×b`.
#[verifier::opaque]
pub open spec fn reciprocal_spec(l: Lattice) -> Result<Seq<Seq<Decimal>>, GeometryError> {
    match lattice_units(l) {
        None => Err(GeometryError::OutOfRange),
        Some(u) => {
            let det = determinant(u[0], u[1], u[2]);
            if det == 0 {
                Err(GeometryError::DegenerateLattice)
            } else {
                match (
                    reciprocal_row(cross(u[1], u[2]), abs(det)),
                    reciprocal_row(cross(u[2], u[0]), abs(det)),
                    reciprocal_row(cross(u[0], u[1]), abs(det)),
                ) {
                    (Some(a), Some(b), Some(c)) => Ok(seq![a, b, c]),
                    _ => Err(GeometryError::DegenerateLattice),
                }
            }
        },
    }
}

/// The value of `d` in units of the fifteenth digit after the point, where
/// it has no finer digits to lose and 64 bits hold it.
pub open spec fn fine_units_of(d: Decimal) -> Option<int> {
    match d.rescale_spec(FINE_PLACES) {
        Some(r) => Some(r.unscaled as int),
        None => None,
    }
}

/// The three components of a vector in units of the fifteenth digit.
pub open spec fn fine_row(row: Seq<Decimal>) -> Option<Seq<int>> {
    match (fine_units_of(row[0]), fine_units_of(row[1]), fine_units_of(row[2])) {
        (Some(x), Some(y), Some(z)) => Some(seq![x, y, z]),
        _ => None,
    }
}

/// The length of a vector, rounded to the nearest value at the fifteenth
/// digit.
pub open spec fn length_spec(row: Seq<Decimal>) -> Result<Decimal, GeometryError> {
    match fine_row(row) {
        Some(u) => {
            let r = root_nearest(dot(u, u) as nat);
            if r <= i64::MAX {
                Ok(Decimal { unscaled: r as i64, scale: FINE_PLACES })
            } else {
                Err(GeometryError::OutOfRange)
            }
        },
        None => Err(GeometryError::OutOfRange),
    }
}

/// The lengths of three vectors.
#[verifier::opaque]
pub open spec fn lengths_spec(rows: Seq<Seq<Decimal>>) -> Result<Seq<Decimal>, GeometryError> {
    match (length_spec(rows[0]), length_spec(rows[1]), length_spec(rows[2])) {
        (Ok(a), Ok(b), Ok(c)) => Ok(seq![a, b, c]),
        _ => Err(GeometryError::OutOfRange),
    }
}

/// The components as integers.
pub open spec fn ints(a: [i64; 3]) -> Seq<int> {
    seq![a[0] as int, a[1] as int, a[2] as int]
}

/// The components as integers.
pub open spec fn wide_ints(a: [i128; 3]) -> Seq<int> {
    seq![a[0] as int, a[1] as int, a[2] as int]
}

/// Whether each component is within the range of the geometry.
pub open spec fn in_range(a: [i64; 3]) -> bool {
    forall|k: int| 0 <= k < 3 ==> -MAX_UNITS <= #[trigger] a[k] <= MAX_UNITS
}

/// A product is within the product of the bounds of its factors.
pub proof fn lemma_product_bound(x: int, y: int, m: int, n: int)
    requires
        -m <= x <= m,
        -n <= y <= n,
    ensures
        -(m * n) <= x * y <= m * n,
{
    assert(-(m * n) <= x * y <= m * n) by (nonlinear_arith)
        requires
            -m <= x <= m,
            -n <= y <= n,
    ;
}

/// The value of a decimal in units of the ninth digit.
fn units(d: &Decimal) -> (r: Option<i64>)
    ensures
        match units_of(*d) {
            Some(u) => r == Some(u as i64),
            None => r is None,
        },
{
    match d.rescale(PLACES) {
        Some(v) => if -MAX_UNITS <= v.unscaled && v.unscaled <= MAX_UNITS {
            Some(v.unscaled)
        } else {
            None
        },
        None => None,
    }
}

/// The components of a vector in units of the ninth digit.
fn units_of_row(row: &[Decimal; 3]) -> (r: Option<[i64; 3]>)
    ensures
        match row_units(row@) {
            Some(u) => r is Some && ints(r->0) == u && in_range(r->0),
            None => r is None,
        },
{
    let x = units(&row[0]);
    let y = units(&row[1]);
    let z = units(&row[2]);
    match (x, y, z) {
        (Some(x), Some(y), Some(z)) => {
            let r = [x, y, z];
            assert(ints(r) =~= seq![x as int, y as int, z as int]);
            Some(r)
        },
        _ => None,
    }
}

/// One component of a vector product.
fn minor(p: i64, q: i64, r: i64, s: i64) -> (m: i128)
    requires
        -MAX_UNITS <= p <= MAX_UNITS,
        -MAX_UNITS <= q <= MAX_UNITS,
        -MAX_UNITS <= r <= MAX_UNITS,
        -MAX_UNITS <= s <= MAX_UNITS,
    ensures
        m == p * q - r * s,
        -2 * (MAX_UNITS * MAX_UNITS) <= m <= 2 * (MAX_UNITS * MAX_UNITS),
{
    proof {
        lemma_product_bound(p as int, q as int, MAX_UNITS as int, MAX_UNITS as int);
        lemma_product_bound(r as int, s as int, MAX_UNITS as int, MAX_UNITS as int);
    }
    (p as i128) * (q as i128) - (r as i128) * (s as i128)
}

/// The vector product.
fn cross_of(b: &[i64; 3], c: &[i64; 3]) -> (r: [i128; 3])
    requires
        in_range(*b),
        in_range(*c),
    ensures
        wide_ints(r) == cross(ints(*b), ints(*c)),
        forall|k: int|
            0 <= k < 3 ==> -2 * (MAX_UNITS * MAX_UNITS) <= #[trigger] r[k] <= 2 * (MAX_UNITS
                * MAX_UNITS),
{
    let r = [
        minor(b[1], c[2], b[2], c[1]),
        minor(b[2], c[0], b[0], c[2]),
        minor(b[0], c[1], b[1], c[0]),
    ];
    assert(wide_ints(r) =~= cross(ints(*b), ints(*c)));
    r
}

/// The scalar product of a vector and a vector product.
fn triple_of(a: &[i64; 3], v: &[i128; 3]) -> (r: i128)
    requires
        in_range(*a),
        forall|k: int|
            0 <= k < 3 ==> -2 * (MAX_UNITS * MAX_UNITS) <= #[trigger] v[k] <= 2 * (MAX_UNITS
                * MAX_UNITS),
    ensures
        r == dot(ints(*a), wide_ints(*v)),
        -0x4000_0000_0000_0000_0000_0000_0000_0000 < r < 0x4000_0000_0000_0000_0000_0000_0000_0000,
{
    proof {
        let w = 2 * (MAX_UNITS * MAX_UNITS);
        lemma_product_bound(a[0] as int, v[0] as int, MAX_UNITS as int, w);
        lemma_product_bound(a[1] as int, v[1] as int, MAX_UNITS as int, w);
        lemma_product_bound(a[2] as int, v[2] as int, MAX_UNITS as int, w);
        assert(MAX_UNITS * w == 0x1000_0000_0000_0000_0000_0000_0000_0000) by (nonlinear_arith)
            requires
                w == 2 * (MAX_UNITS * MAX_UNITS),
                MAX_UNITS == 0x200_0000_0000,
        ;
    }
    (a[0] as i128) * v[0] + (a[1] as i128) * v[1] + (a[2] as i128) * v[2]
}

/// The magnitude of `v`.
fn wide_magnitude(v: i128) -> (m: u128)
    requires
        v > i128::MIN,
    ensures
        m == abs(v as int),
{
    if v < 0 {
        (-v) as u128
    } else {
        v as u128
    }
}

/// A component of a reciprocal lattice vector.
fn reciprocal_part(x: i128, volume: u128) -> (r: Option<Decimal>)
    requires
        0 < volume < 0x4000_0000_0000_0000_0000_0000_0000_0000,
        -2 * (MAX_UNITS * MAX_UNITS) <= x <= 2 * (MAX_UNITS * MAX_UNITS),
    ensures
        r == reciprocal_component(x as int, volume as nat),
{
    proof {
        assert(MAX_UNITS * MAX_UNITS == 0x4_0000_0000_0000_0000_0000) by (nonlinear_arith)
            requires
                MAX_UNITS == 0x200_0000_0000,
        ;
    }
    let small = wide_magnitude(x);
    assert(small * FINE <= 0x8_0000_0000_0000_0000_0000 * 1_000_000) by (nonlinear_arith)
        requires
            small <= 0x8_0000_0000_0000_0000_0000,
            FINE == 1_000_000,
    ;
    let mag = small * (FINE as u128);
    let whole = mag / volume;
    let rest = mag % volume;
    let ghost product: int = TWO_PI * mag;
    proof {
        vstd::arithmetic::div_mod::lemma_fundamental_div_mod(mag as int, volume as int);
        assert(mag == volume * whole + rest);
        let fine = x * FINE;
        if x < 0 {
            assert(-(TWO_PI * fine) == TWO_PI * mag) by (nonlinear_arith)
                requires
                    mag == (-x) * FINE,
                    fine == x * FINE,
            ;
            assert(TWO_PI * fine <= 0) by (nonlinear_arith)
                requires
                    x < 0,
                    fine == x * FINE,
            ;
        } else {
            assert(TWO_PI * fine == TWO_PI * mag && TWO_PI * fine >= 0) by (nonlinear_arith)
                requires
                    x >= 0,
                    mag == x * FINE,
                    fine == x * FINE,
            ;
        }
        assert(product >= 0) by (nonlinear_arith)
            requires
                product == TWO_PI * mag,
        ;
    }
    if whole >= 2 {
        proof {
            // twice 2π is more than 63 bits hold
            assert(product >= (2 * TWO_PI) * volume) by (nonlinear_arith)
                requires
                    product == TWO_PI * mag,
                    mag == volume * whole + rest,
                    whole >= 2,
            ;
            vstd::arithmetic::div_mod::lemma_div_is_ordered(
                (2 * TWO_PI) * volume,
                product,
                volume as int,
            );
            vstd::arithmetic::div_mod::lemma_div_multiples_vanish(2 * TWO_PI, volume as int);
            assert((2 * TWO_PI) * volume == volume * (2 * TWO_PI)) by (nonlinear_arith);
            assert(product / (volume as int) >= 2 * TWO_PI);
            assert(round_div(product as nat, volume as nat, Rounding::HalfEven) >= 2 * TWO_PI);
        }
        return None;
    }
    let (q1, r1) = mul_div(TWO_PI, rest, volume);
    let q = whole * (TWO_PI as u128) + q1;
    proof {
        assert(product == q * volume + r1) by (nonlinear_arith)
            requires
                product == TWO_PI * mag,
                mag == volume * whole + rest,
                TWO_PI * rest == q1 * volume + r1,
                q == whole * TWO_PI + q1,
        ;
        vstd::arithmetic::div_mod::lemma_fundamental_div_mod_converse(
            product,
            volume as int,
            q as int,
            r1 as int,
        );
    }
    let rounded = if 2 * r1 < volume {
        q
    } else if 2 * r1 > volume {
        q + 1
    } else if q % 2 == 0 {
        q
    } else {
        q + 1
    };
    assert(rounded == round_div(product as nat, volume as nat, Rounding::HalfEven));
    match signed(x < 0, rounded) {
        Some(unscaled) => Some(Decimal { unscaled, scale: FINE_PLACES }),
        None => None,
    }
}

/// A reciprocal lattice vector.
fn reciprocal_vector(v: &[i128; 3], volume: u128) -> (r: Option<[Decimal; 3]>)
    requires
        0 < volume < 0x4000_0000_0000_0000_0000_0000_0000_0000,
        forall|k: int|
            0 <= k < 3 ==> -2 * (MAX_UNITS * MAX_UNITS) <= #[trigger] v[k] <= 2 * (MAX_UNITS
                * MAX_UNITS),
    ensures
        match reciprocal_row(wide_ints(*v), volume as nat) {
            Some(row) => r is Some && r->0@ == row,
            None => r is None,
        },
{
    let x = reciprocal_part(v[0], volume);
    let y = reciprocal_part(v[1], volume);
    let z = reciprocal_part(v[2], volume);
    match (x, y, z) {
        (Some(x), Some(y), Some(z)) => {
            let r = [x, y, z];
            assert(r@ =~= seq![x, y, z]);
            Some(r)
        },
        _ => None,
    }
}

/// The square of `u`.
fn square(u: i64) -> (r: u128)
    ensures
        r == u * u,
        r <= 0x4000_0000_0000_0000_0000_0000_0000_0000,
{
    proof {
        lemma_product_bound(
            u as int,
            u as int,
            0x8000_0000_0000_0000,
            0x8000_0000_0000_0000,
        );
        assert(u * u >= 0) by (nonlinear_arith);
    }
    ((u as i128) * (u as i128)) as u128
}

/// The length of a vector.
fn length_of(row: &[Decimal; 3]) -> (r: Result<Decimal, GeometryError>)
    ensures
        r == length_spec(row@),
{
    let x = row[0].rescale(FINE_PLACES);
    let y = row[1].rescale(FINE_PLACES);
    let z = row[2].rescale(FINE_PLACES);
    let (x, y, z) = match (x, y, z) {
        (Some(x), Some(y), Some(z)) => (x.unscaled, y.unscaled, z.unscaled),
        _ => {
            return Err(GeometryError::OutOfRange);
        },
    };
    let ghost u = seq![x as int, y as int, z as int];
    assert(fine_row(row@) == Some(u));
    let n = square(x) + square(y) + square(z);
    assert(n == dot(u, u));
    let s = isqrt(n);
    proof {
        lemma_root_floor(n as nat);
        assert(s * s < 0x1_0000_0000_0000_0000 * 0x1_0000_0000_0000_0000) by (nonlinear_arith)
            requires
                s < 0x1_0000_0000_0000_0000,
        ;
    }
    let nearest = if n - s * s > s {
        s + 1
    } else {
        s
    };
    if nearest > 0x7fff_ffff_ffff_ffffu128 {
        Err(GeometryError::OutOfRange)
    } else {
        Ok(Decimal { unscaled: nearest as i64, scale: FINE_PLACES })
    }
}

/// The three vectors of a cell in units of the ninth digit.
struct Cell {
    a: [i64; 3],
    b: [i64; 3],
    c: [i64; 3],
}

impl Cell {
    /// The three vectors as integers.
    spec fn rows(self) -> Seq<Seq<int>> {
        seq![ints(self.a), ints(self.b), ints(self.c)]
    }

    /// Whether each component is within the range of the geometry.
    spec fn in_range(self) -> bool {
        in_range(self.a) && in_range(self.b) && in_range(self.c)
    }
}

impl Lattice {
    /// The three vectors in units of the ninth digit.
    fn units(&self) -> (r: Option<Cell>)
        ensures
            match lattice_units(*self) {
                Some(u) => r is Some && r->0.rows() == u && r->0.in_range(),
                None => r is None,
            },
    {
        let a = units_of_row(&self.a);
        let b = units_of_row(&self.b);
        let c = units_of_row(&self.c);
        match (a, b, c) {
            (Some(a), Some(b), Some(c)) => Some(Cell { a, b, c }),
            _ => None,
        }
    }

    /// The volume of the cell.
    pub fn volume(&self) -> (r: Result<Decimal, GeometryError>)
        ensures
            r == volume_spec(*self),
    {
        reveal(volume_spec);
        let Cell { a, b, c } = match self.units() {
            Some(u) => u,
            None => {
                return Err(GeometryError::OutOfRange);
            },
        };
        let det = triple_of(&a, &cross_of(&b, &c));
        match finest_fit(false, wide_magnitude(det), 27, 27) {
            Some(v) => Ok(v),
            None => Err(GeometryError::OutOfRange),
        }
    }

    /// The reciprocal cell.
    pub fn reciprocal(&self) -> (r: Result<Lattice, GeometryError>)
        ensures
            match reciprocal_spec(*self) {
                Ok(rows) => r is Ok && r->Ok_0.rows() == rows,
                Err(e) => r == Err::<Lattice, GeometryError>(e),
            },
    {
        reveal(reciprocal_spec);
        let Cell { a, b, c } = match self.units() {
            Some(u) => u,
            None => {
                return Err(GeometryError::OutOfRange);
            },
        };
        let bc = cross_of(&b, &c);
        let ca = cross_of(&c, &a);
        let ab = cross_of(&a, &b);
        let det = triple_of(&a, &bc);
        if det == 0 {
            return Err(GeometryError::DegenerateLattice);
        }
        let volume = wide_magnitude(det);
        let x = reciprocal_vector(&bc, volume);
        let y = reciprocal_vector(&ca, volume);
        let z = reciprocal_vector(&ab, volume);
        match (x, y, z) {
            (Some(x), Some(y), Some(z)) => {
                let l = Lattice::new(x, y, z);
                assert(l.rows() =~= seq![x@, y@, z@]);
                Ok(l)
            },
            _ => Err(GeometryError::DegenerateLattice),
        }
    }

    /// The lengths of the three vectors of the cell.
    pub fn lengths(&self) -> (r: Result<[Decimal; 3], GeometryError>)
        ensures
            match lengths_spec(self.rows()) {
                Ok(l) => r is Ok && r->Ok_0@ == l,
                Err(e) => r == Err::<[Decimal; 3], GeometryError>(e),
            },
    {
        reveal(lengths_spec);
        let a = length_of(&self.a);
        let b = length_of(&self.b);
        let c = length_of(&self.c);
        match (a, b, c) {
            (Ok(a), Ok(b), Ok(c)) => {
                let l = [a, b, c];
                assert(l@ =~= seq![a, b, c]);
                Ok(l)
            },
            _ => Err(GeometryError::OutOfRange),
        }
    }
}

} // verus!
