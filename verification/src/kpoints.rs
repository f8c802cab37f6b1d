//! The KPOINTS mesh file: a sampling scheme and three subdivisions, given
//! outright or worked out from a density.

use vstd::prelude::*;
use crate::decimal::{abs, Decimal};
use crate::geometry::{lengths_spec, reciprocal_spec, GeometryError};
use crate::poscar::types::Lattice;
use crate::number::{
    magnitude, nat_digits, pow10, push_nat, round_div_signed, round_shift, Rounding,
};
use crate::text::{chars_of, push_str, string_from_chars};

verus! {

/// Why a mesh could not be made.
#[derive(Debug, Clone, PartialEq, Eq)]
pub enum KpointsError {
    /// The text names no scheme.
    UnknownScheme(String),
    /// A subdivision of the mesh is zero.
    EmptyMesh,
    /// The cell has no volume, or so little that its reciprocal cell cannot
    /// be held.
    DegenerateLattice,
    /// A component of a lattice vector, or of a reciprocal one, is too large.
    OutOfRange,
}

/// A `KpointsError` as plain values.
pub ghost enum KpointsFault {
    UnknownScheme(Seq<char>),
    EmptyMesh,
    DegenerateLattice,
    OutOfRange,
}

/// The fault of a mesh that a fault of the geometry brings.
pub open spec fn geometry_fault(e: GeometryError) -> KpointsFault {
    match e {
        GeometryError::DegenerateLattice => KpointsFault::DegenerateLattice,
        GeometryError::OutOfRange => KpointsFault::OutOfRange,
    }
}

impl View for KpointsError {
    type V = KpointsFault;

    open spec fn view(&self) -> KpointsFault {
        match self {
            KpointsError::UnknownScheme(s) => KpointsFault::UnknownScheme(s@),
            KpointsError::EmptyMesh => KpointsFault::EmptyMesh,
            KpointsError::DegenerateLattice => KpointsFault::DegenerateLattice,
            KpointsError::OutOfRange => KpointsFault::OutOfRange,
        }
    }
}

/// How the mesh is laid over the reciprocal cell.
#[derive(Debug, Clone, Copy, PartialEq, Eq, Structural)]
pub enum KpointsScheme {
    Gamma,
    MonkhorstPack,
}

/// The scheme that a text names by its first letter, whatever the case: `g`
/// for gamma-centred, `m` for Monkhorst-Pack.
pub open spec fn scheme_of(s: Seq<char>) -> Option<KpointsScheme> {
    if s.len() > 0 && (s[0] == 'g' || s[0] == 'G') {
        Some(KpointsScheme::Gamma)
    } else if s.len() > 0 && (s[0] == 'm' || s[0] == 'M') {
        Some(KpointsScheme::MonkhorstPack)
    } else {
        None
    }
}

impl KpointsScheme {
    /// The name that a mesh file gives the scheme.
    pub open spec fn name(self) -> Seq<char> {
        match self {
            KpointsScheme::Gamma => "Gamma"@,
            KpointsScheme::MonkhorstPack => "Monkhorst-Pack"@,
        }
    }

    /// Reads a scheme.
    pub fn from_str(s: &str) -> (r: Result<KpointsScheme, KpointsError>)
        ensures
            match scheme_of(s@) {
                Some(k) => r == Ok::<KpointsScheme, KpointsError>(k),
                None => r is Err && r->Err_0@ == KpointsFault::UnknownScheme(s@),
            },
    {
        let c = chars_of(s);
        if c.len() > 0 && (c[0] == 'g' || c[0] == 'G') {
            Ok(KpointsScheme::Gamma)
        } else if c.len() > 0 && (c[0] == 'm' || c[0] == 'M') {
            Ok(KpointsScheme::MonkhorstPack)
        } else {
            Err(KpointsError::UnknownScheme(string_from_chars(c.as_slice())))
        }
    }

    /// The name that a mesh file gives the scheme.
    pub fn to_string(&self) -> (s: String)
        ensures
            s@ == self.name(),
    {
        match self {
            KpointsScheme::Gamma => "Gamma".to_owned(),
            KpointsScheme::MonkhorstPack => "Monkhorst-Pack".to_owned(),
        }
    }
}

/// A sampling mesh: the scheme and the number of subdivisions along each
/// reciprocal lattice vector.
#[derive(Debug, Clone, Copy, PartialEq, Eq)]
pub struct Kpoints {
    pub scheme: KpointsScheme,
    pub mesh: [u32; 3],
}

/// What a mesh is made from.
#[derive(Debug, Clone, Copy)]
pub enum MeshRequest {
    /// The three subdivisions.
    Explicit([u32; 3]),
    /// The number of subdivisions for each unit of reciprocal length, and the
    /// cell.
    FromDensity(Decimal, Lattice),
}

/// The subdivisions along reciprocal lattice vectors of the given lengths at
/// the density `density`.
pub open spec fn mesh_of_lengths(lengths: Seq<Decimal>, density: Decimal) -> Seq<u32> {
    seq![
        subdivisions(lengths[0], density),
        subdivisions(lengths[1], density),
        subdivisions(lengths[2], density),
    ]
}

/// The mesh that samples the reciprocal cell of `lattice` at the density
/// `density`: along each reciprocal lattice vector as many subdivisions as
/// its length asks for.
#[verifier::opaque]
pub open spec fn mesh_of(density: Decimal, lattice: Lattice) -> Result<Seq<u32>, GeometryError> {
    match reciprocal_spec(lattice) {
        Err(e) => Err(e),
        Ok(rows) => match lengths_spec(rows) {
            Err(e) => Err(e),
            Ok(lengths) => Ok(mesh_of_lengths(lengths, density)),
        },
    }
}

/// The number of subdivisions along a reciprocal lattice vector of length
/// `length` at the density `density`: their product, rounded to the nearest
/// integer and away from zero where two are equally near, but at least one
/// and at most what 32 bits hold.
pub open spec fn subdivisions(length: Decimal, density: Decimal) -> u32 {
    let v = round_div_signed(
        length.unscaled * density.unscaled,
        pow10((length.scale + density.scale) as nat),
        Rounding::HalfAwayFromZero,
    );
    if v < 1 {
        1
    } else if v > u32::MAX {
        u32::MAX
    } else {
        v as u32
    }
}

/// The text of a mesh file: a title, a zero that asks for an automatic
/// mesh, the scheme, the three subdivisions and no shift.
pub open spec fn kpoints_text(scheme: KpointsScheme, mesh: Seq<u32>) -> Seq<char> {
    "Autometic mesh\n 0\n"@ + scheme.name() + seq!['\n'] + nat_digits(mesh[0] as nat) + seq![
        ' ',
        ' ',
    ] + nat_digits(mesh[1] as nat) + seq![' ', ' '] + nat_digits(mesh[2] as nat) + "\n0  0  0\n"@
}

/// The number of subdivisions for one reciprocal length.
fn subdivide(length: &Decimal, density: &Decimal) -> (n: u32)
    ensures
        n == subdivisions(*length, *density),
{
    let a = magnitude(length.unscaled) as u128;
    let b = magnitude(density.unscaled) as u128;
    assert(a * b < 0x8000_0000_0000_0000_0000_0000_0000_0000u128) by (nonlinear_arith)
        requires
            a <= 0x8000_0000_0000_0000u128,
            b <= 0x8000_0000_0000_0000u128,
    ;
    let negative = (length.unscaled < 0) != (density.unscaled < 0);
    proof {
        let x = length.unscaled as int;
        let y = density.unscaled as int;
        assert(abs(x * y) == a * b && (x * y < 0 ==> negative) && (negative ==> x * y <= 0))
            by (nonlinear_arith)
            requires
                a == abs(x),
                b == abs(y),
                negative == ((x < 0) != (y < 0)),
        ;
    }
    let rounded = round_shift(
        a * b,
        length.scale as u32 + density.scale as u32,
        Rounding::HalfAwayFromZero,
    );
    if negative || rounded < 1 {
        1
    } else if rounded > 0xffff_ffffu128 {
        u32::MAX
    } else {
        rounded as u32
    }
}

impl Kpoints {
    /// Whether every subdivision is at least one.
    pub open spec fn wf(self) -> bool {
        self.mesh[0] >= 1 && self.mesh[1] >= 1 && self.mesh[2] >= 1
    }

    /// The gamma-centred mesh of one point.
    pub fn default() -> (k: Kpoints)
        ensures
            k.scheme == KpointsScheme::Gamma,
            k.mesh@ == seq![1u32, 1u32, 1u32],
            k.wf(),
    {
        let k = Kpoints { scheme: KpointsScheme::Gamma, mesh: [1, 1, 1] };
        assert(k.mesh@ =~= seq![1u32, 1u32, 1u32]);
        k
    }

    /// The mesh of the given scheme and subdivisions.
    pub fn new(scheme: KpointsScheme, mesh: [u32; 3]) -> (k: Kpoints)
        requires
            mesh[0] >= 1,
            mesh[1] >= 1,
            mesh[2] >= 1,
        ensures
            k.scheme == scheme,
            k.mesh == mesh,
            k.wf(),
    {
        Kpoints { scheme, mesh }
    }

    /// The mesh that samples reciprocal lattice vectors of the given lengths
    /// at the given density.
    pub fn from_lengths(scheme: KpointsScheme, density: Decimal, lengths: [Decimal; 3]) -> (k:
        Kpoints)
        ensures
            k.scheme == scheme,
            k.mesh@ == mesh_of_lengths(lengths@, density),
            k.wf(),
    {
        let mesh = [
            subdivide(&lengths[0], &density),
            subdivide(&lengths[1], &density),
            subdivide(&lengths[2], &density),
        ];
        let k = Kpoints { scheme, mesh };
        assert(k.mesh@ =~= mesh_of_lengths(lengths@, density));
        k
    }

    /// The mesh that samples the reciprocal cell of `lattice` at the given
    /// density.
    pub fn from_density(scheme: KpointsScheme, density: Decimal, lattice: Lattice) -> (r: Result<
        Kpoints,
        GeometryError,
    >)
        ensures
            match mesh_of(density, lattice) {
                Ok(mesh) => r is Ok && r->Ok_0.scheme == scheme && r->Ok_0.mesh@ == mesh
                    && r->Ok_0.wf(),
                Err(e) => r == Err::<Kpoints, GeometryError>(e),
            },
    {
        reveal(mesh_of);
        let reciprocal = lattice.reciprocal()?;
        let lengths = reciprocal.lengths()?;
        Ok(Kpoints::from_lengths(scheme, density, lengths))
    }

    /// The mesh that a request asks for: the subdivisions as they are given,
    /// none of which may be zero, or those that the density gives.
    pub fn resolve(scheme: KpointsScheme, request: MeshRequest) -> (r: Result<Kpoints, KpointsError>)
        ensures
            match request {
                MeshRequest::Explicit(mesh) => if mesh[0] >= 1 && mesh[1] >= 1 && mesh[2] >= 1 {
                    r is Ok && r->Ok_0.scheme == scheme && r->Ok_0.mesh == mesh
                } else {
                    r is Err && r->Err_0@ == KpointsFault::EmptyMesh
                },
                MeshRequest::FromDensity(density, lattice) => match mesh_of(density, lattice) {
                    Ok(mesh) => r is Ok && r->Ok_0.scheme == scheme && r->Ok_0.mesh@ == mesh,
                    Err(e) => r is Err && r->Err_0@ == geometry_fault(e),
                },
            },
            r is Ok ==> r->Ok_0.wf(),
    {
        match request {
            MeshRequest::Explicit(mesh) => {
                if mesh[0] >= 1 && mesh[1] >= 1 && mesh[2] >= 1 {
                    Ok(Kpoints::new(scheme, mesh))
                } else {
                    Err(KpointsError::EmptyMesh)
                }
            },
            MeshRequest::FromDensity(density, lattice) => {
                match Kpoints::from_density(scheme, density, lattice) {
                    Ok(k) => Ok(k),
                    Err(GeometryError::DegenerateLattice) => Err(KpointsError::DegenerateLattice),
                    Err(GeometryError::OutOfRange) => Err(KpointsError::OutOfRange),
                }
            },
        }
    }

    /// The text of the mesh file.
    pub fn to_string(&self) -> (s: String)
        ensures
            s@ == kpoints_text(self.scheme, self.mesh@),
    {
        let mut out: Vec<char> = Vec::new();
        push_str(&mut out, "Autometic mesh\n 0\n");
        match self.scheme {
            KpointsScheme::Gamma => push_str(&mut out, "Gamma"),
            KpointsScheme::MonkhorstPack => push_str(&mut out, "Monkhorst-Pack"),
        }
        out.push('\n');
        push_nat(&mut out, self.mesh[0] as u64);
        out.push(' ');
        out.push(' ');
        push_nat(&mut out, self.mesh[1] as u64);
        out.push(' ');
        out.push(' ');
        push_nat(&mut out, self.mesh[2] as u64);
        push_str(&mut out, "\n0  0  0\n");
        assert(out@ =~= kpoints_text(self.scheme, self.mesh@));
        string_from_chars(out.as_slice())
    }
}

/// Whatever the length and the density, there is at least one subdivision.
pub proof fn lemma_subdivisions_positive(length: Decimal, density: Decimal)
    ensures
        subdivisions(length, density) >= 1,
{
}

/// Density-derived mesh: the mesh of a density and a cell has at least one
/// subdivision along each axis.
pub proof fn lemma_mesh_positive(density: Decimal, lattice: Lattice)
    requires
        mesh_of(density, lattice) is Ok,
    ensures
        ({
            let mesh = mesh_of(density, lattice)->Ok_0;
            mesh.len() == 3 && mesh[0] >= 1 && mesh[1] >= 1 && mesh[2] >= 1
        }),
{
    reveal(mesh_of);
    let rows = reciprocal_spec(lattice)->Ok_0;
    let lengths = lengths_spec(rows)->Ok_0;
    lemma_mesh_of_lengths_positive(lengths, density);
}

/// Whatever the lengths and the density, there is at least one subdivision
/// along each axis.
pub proof fn lemma_mesh_of_lengths_positive(lengths: Seq<Decimal>, density: Decimal)
    ensures
        ({
            let mesh = mesh_of_lengths(lengths, density);
            mesh.len() == 3 && mesh[0] >= 1 && mesh[1] >= 1 && mesh[2] >= 1
        }),
{
    lemma_subdivisions_positive(lengths[0], density);
    lemma_subdivisions_positive(lengths[1], density);
    lemma_subdivisions_positive(lengths[2], density);
}

} // verus!
