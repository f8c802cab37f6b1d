//! The data of a structure file.

use vstd::prelude::*;
use crate::decimal::Decimal;
use crate::text::{chars_of, push_str, string_from_chars, string_views};

verus! {

/// The number of digits after the point that a structure file keeps of each
/// real number.
pub const PLACES: u8 = 9;

/// The three vectors that span a periodic cell.
#[derive(Debug, Clone, Copy, PartialEq)]
pub struct Lattice {
    pub a: [Decimal; 3],
    pub b: [Decimal; 3],
    pub c: [Decimal; 3],
}

impl Lattice {
    /// The cell of the vectors `a`, `b` and `c`.
    pub fn new(a: [Decimal; 3], b: [Decimal; 3], c: [Decimal; 3]) -> (l: Lattice)
        ensures
            l.a == a,
            l.b == b,
            l.c == c,
    {
        Lattice { a, b, c }
    }

    /// The three vectors, in order, each as its three components.
    pub open spec fn rows(self) -> Seq<Seq<Decimal>> {
        seq![self.a@, self.b@, self.c@]
    }
}

/// Whether positions are absolute or fractions of the lattice vectors.
#[derive(Debug, Clone, Copy, PartialEq, Eq, Structural)]
pub enum CoordinateSystem {
    Cartesian,
    Direct,
}

/// The coordinate system that a line names by its first letter, whatever the
/// case: `c` for Cartesian, `d` for direct.
pub open spec fn coordinate_system_of(s: Seq<char>) -> Option<CoordinateSystem> {
    if s.len() > 0 && (s[0] == 'c' || s[0] == 'C') {
        Some(CoordinateSystem::Cartesian)
    } else if s.len() > 0 && (s[0] == 'd' || s[0] == 'D') {
        Some(CoordinateSystem::Direct)
    } else {
        None
    }
}

impl CoordinateSystem {
    /// The name that a structure file gives the coordinate system.
    pub open spec fn name(self) -> Seq<char> {
        match self {
            CoordinateSystem::Cartesian => "Cartesian"@,
            CoordinateSystem::Direct => "Direct"@,
        }
    }

    /// Reads a coordinate system from the characters of a line.
    pub fn from_chars(s: &[char]) -> (r: Option<CoordinateSystem>)
        ensures
            r == coordinate_system_of(s@),
    {
        if s.len() > 0 && (s[0] == 'c' || s[0] == 'C') {
            Some(CoordinateSystem::Cartesian)
        } else if s.len() > 0 && (s[0] == 'd' || s[0] == 'D') {
            Some(CoordinateSystem::Direct)
        } else {
            None
        }
    }

    /// The name that a structure file gives the coordinate system.
    pub fn to_string(&self) -> (s: String)
        ensures
            s@ == self.name(),
    {
        let mut out: Vec<char> = Vec::new();
        match self {
            CoordinateSystem::Cartesian => push_str(&mut out, "Cartesian"),
            CoordinateSystem::Direct => push_str(&mut out, "Direct"),
        }
        assert(out@ =~= self.name());
        string_from_chars(out.as_slice())
    }
}

/// Whether an atom may move along one axis.
#[derive(Debug, Clone, Copy, PartialEq, Eq, Structural)]
pub struct SelectiveDynamics(pub bool);

/// The flag that a token writes: `T` or `F`.
pub open spec fn flag_of(s: Seq<char>) -> Option<bool> {
    if s == seq!['T'] {
        Some(true)
    } else if s == seq!['F'] {
        Some(false)
    } else {
        None
    }
}

impl SelectiveDynamics {
    /// The token that writes this flag.
    pub open spec fn token(self) -> Seq<char> {
        if self.0 {
            seq!['T']
        } else {
            seq!['F']
        }
    }

    /// Reads a flag from the characters of a token.
    pub fn from_chars(s: &[char]) -> (r: Option<SelectiveDynamics>)
        ensures
            r == match flag_of(s@) {
                Some(b) => Some(SelectiveDynamics(b)),
                None => None,
            },
    {
        if s.len() == 1 && s[0] == 'T' {
            assert(s@ =~= seq!['T']);
            Some(SelectiveDynamics(true))
        } else if s.len() == 1 && s[0] == 'F' {
            assert(s@ =~= seq!['F']);
            Some(SelectiveDynamics(false))
        } else {
            proof {
                if s@ == seq!['T'] || s@ == seq!['F'] {
                    assert(s@.len() == 1);
                    assert(s@[0] == 'T' || s@[0] == 'F');
                }
            }
            None
        }
    }

    /// Reads a flag; the error is a message that names the token.
    pub fn from_str(s: &str) -> (r: Result<SelectiveDynamics, String>)
        ensures
            match flag_of(s@) {
                Some(b) => r == Ok::<SelectiveDynamics, String>(SelectiveDynamics(b)),
                None => r is Err && r->Err_0@ == "Invalid selective dynamics: "@ + s@,
            },
    {
        let chars = chars_of(s);
        match SelectiveDynamics::from_chars(chars.as_slice()) {
            Some(f) => Ok(f),
            None => {
                let mut out: Vec<char> = Vec::new();
                push_str(&mut out, "Invalid selective dynamics: ");
                push_str(&mut out, s);
                Err(string_from_chars(out.as_slice()))
            },
        }
    }

    /// The token that writes this flag.
    pub fn to_string(&self) -> (s: String)
        ensures
            s@ == self.token(),
    {
        let mut out: Vec<char> = Vec::new();
        out.push(
            if self.0 {
                'T'
            } else {
                'F'
            },
        );
        assert(out@ =~= self.token());
        string_from_chars(out.as_slice())
    }
}

/// The three flags of a triple of motion constraints.
pub open spec fn flags(c: [SelectiveDynamics; 3]) -> Seq<bool> {
    seq![c[0].0, c[1].0, c[2].0]
}

/// The positions that the arrays hold.
pub open spec fn position_views(v: Seq<[Decimal; 3]>) -> Seq<Seq<Decimal>> {
    Seq::new(v.len(), |i: int| v[i]@)
}

/// The flags that the arrays hold.
pub open spec fn constraint_views(v: Seq<[SelectiveDynamics; 3]>) -> Seq<Seq<bool>> {
    Seq::new(v.len(), |i: int| flags(v[i]))
}

/// A periodic structure: the cell, the species with the number of atoms of
/// each, and for every atom its position and, if the structure has them, its
/// three motion constraints.
#[derive(Debug)]
pub struct Poscar {
    pub lattice: Lattice,
    pub species: Vec<String>,
    pub num_species: Vec<usize>,
    pub positions: Vec<[Decimal; 3]>,
    pub coord_type: CoordinateSystem,
    pub selective_dynamics: Option<Vec<[SelectiveDynamics; 3]>>,
}

/// What a `Poscar` holds, as plain values.
pub ghost struct PoscarView {
    pub lattice: Seq<Seq<Decimal>>,
    pub species: Seq<Seq<char>>,
    pub counts: Seq<usize>,
    pub positions: Seq<Seq<Decimal>>,
    pub coord_type: CoordinateSystem,
    pub constraints: Option<Seq<Seq<bool>>>,
}

/// The sum of the counts.
pub open spec fn total(counts: Seq<usize>) -> nat
    decreases counts.len(),
{
    if counts.len() == 0 {
        0
    } else {
        total(counts.drop_last()) + counts.last() as nat
    }
}

/// The labels of the atoms of the first `k` species: each label, repeated
/// as often as its count says, in the order of the species.
pub open spec fn expand(species: Seq<Seq<char>>, counts: Seq<usize>, k: nat) -> Seq<Seq<char>>
    recommends
        k <= species.len(),
        k <= counts.len(),
    decreases k,
{
    if k == 0 {
        Seq::empty()
    } else {
        expand(species, counts, (k - 1) as nat) + Seq::new(
            counts[k - 1] as nat,
            |i: int| species[k - 1],
        )
    }
}

impl PoscarView {
    /// The number of atoms.
    pub open spec fn atoms(self) -> nat {
        total(self.counts)
    }

    /// The chemical symbol of each atom: the label of its species.
    pub open spec fn chemical_symbols(self) -> Seq<Seq<char>> {
        expand(
            self.species,
            self.counts,
            if self.species.len() <= self.counts.len() {
                self.species.len()
            } else {
                self.counts.len()
            },
        )
    }

    /// Whether there is one triple of motion constraints for each position,
    /// where there are any.
    pub open spec fn aligned(self) -> bool {
        match self.constraints {
            Some(c) => c.len() == self.positions.len(),
            None => true,
        }
    }

    /// The invariants of a structure: one count for each species, and one
    /// position and, where there are constraints, one triple of them for
    /// each atom.
    pub open spec fn wf(self) -> bool {
        &&& self.lattice.len() == 3
        &&& forall|i: int| 0 <= i < 3 ==> (#[trigger] self.lattice[i]).len() == 3
        &&& self.species.len() == self.counts.len()
        &&& self.positions.len() == self.atoms()
        &&& forall|i: int|
            0 <= i < self.positions.len() ==> (#[trigger] self.positions[i]).len() == 3
        &&& match self.constraints {
            Some(c) => c.len() == self.atoms() && forall|i: int|
                0 <= i < c.len() ==> (#[trigger] c[i]).len() == 3,
            None => true,
        }
    }
}

impl View for Poscar {
    type V = PoscarView;

    open spec fn view(&self) -> PoscarView {
        PoscarView {
            lattice: self.lattice.rows(),
            species: string_views(self.species@),
            counts: self.num_species@,
            positions: position_views(self.positions@),
            coord_type: self.coord_type,
            constraints: match self.selective_dynamics {
                Some(v) => Some(constraint_views(v@)),
                None => None,
            },
        }
    }
}

impl Poscar {
    /// The chemical symbol of each atom, worked out from the species and
    /// their counts.
    pub fn chemical_symbols(&self) -> (r: Vec<String>)
        ensures
            string_views(r@) == self@.chemical_symbols(),
    {
        let mut r: Vec<String> = Vec::new();
        let n = if self.species.len() <= self.num_species.len() {
            self.species.len()
        } else {
            self.num_species.len()
        };
        let mut k: usize = 0;
        assert(string_views(r@) =~= expand(self@.species, self@.counts, 0));
        while k < n
            invariant
                k <= n,
                n <= self.species.len(),
                n <= self.num_species.len(),
                string_views(r@) == expand(self@.species, self@.counts, k as nat),
            decreases n - k,
        {
            let ghost before = string_views(r@);
            let count = self.num_species[k];
            let mut j: usize = 0;
            while j < count
                invariant
                    j <= count,
                    k < self.species.len(),
                    string_views(r@) == before + Seq::new(j as nat, |i: int| self.species[k as int]@),
                decreases count - j,
            {
                let ghost old_r = r@;
                assert(string_views(old_r).len() == before.len() + j);
                assert(string_views(old_r).len() == old_r.len());
                let label = self.species[k].clone();
                assert(label@ == self.species[k as int]@);
                r.push(label);
                j += 1;
                proof {
                    let now = string_views(r@);
                    let want = before + Seq::new(j as nat, |i: int| self.species[k as int]@);
                    assert(now.len() == want.len());
                    assert forall|i: int| 0 <= i < now.len() implies now[i] == want[i] by {
                        if i < old_r.len() {
                            assert(r@[i] == old_r[i]);
                            assert(string_views(old_r)[i] == old_r[i]@);
                        }
                    }
                    assert(now =~= want);
                }
            }
            k += 1;
            assert(string_views(r@) =~= expand(self@.species, self@.counts, k as nat));
        }
        r
    }
}

} // verus!
