//! Reading and writing the text of a structure file.

use vstd::prelude::*;
use crate::decimal::{fixed_text, parse_decimal_spec, Decimal};
use crate::number::{nat_digits, parse_usize, parse_usize_spec, push_nat, Rounding};
use crate::poscar::types::{
    constraint_views, coordinate_system_of, flag_of, flags, position_views, total, CoordinateSystem, Lattice, Poscar, PoscarView,
    SelectiveDynamics, PLACES,
};
use crate::text::{
    chars_of, chars_of_all, join, join_with, lines_of, split_lines, split_whitespace,
    string_from_chars, terminate, terminated, tokens_of, trim, trim_of, views,
};

verus! {

/// The parts of a structure file, in the order in which they stand.
#[derive(Debug, Clone, Copy, PartialEq, Eq, Structural)]
pub enum PoscarSection {
    Title,
    ScalingFactor,
    Lattice,
    Species,
    Counts,
    CoordinateSystem,
    Positions,
}

/// Why a structure file could not be read.
#[derive(Debug, Clone, PartialEq, Eq)]
pub enum PoscarParseError {
    /// No file at the given path.
    FileNotFound(String),
    /// The line that should name the coordinate system names none.
    UnknownCoordinateSystem(String),
    /// The token that should be a motion constraint is neither `T` nor `F`.
    BadSelectiveDynamics(String),
    /// A line or a token is missing, a number cannot be read, or there are
    /// not as many counts as species: in the given section, on the line of
    /// the given index, counted from zero.
    BadPOSCAR(PoscarSection, usize),
}

/// A `PoscarParseError` as plain values.
pub ghost enum PoscarFault {
    FileNotFound(Seq<char>),
    UnknownCoordinateSystem(Seq<char>),
    BadSelectiveDynamics(Seq<char>),
    BadPOSCAR(PoscarSection, usize),
}

impl View for PoscarParseError {
    type V = PoscarFault;

    open spec fn view(&self) -> PoscarFault {
        match self {
            PoscarParseError::FileNotFound(s) => PoscarFault::FileNotFound(s@),
            PoscarParseError::UnknownCoordinateSystem(s) => PoscarFault::UnknownCoordinateSystem(
                s@,
            ),
            PoscarParseError::BadSelectiveDynamics(s) => PoscarFault::BadSelectiveDynamics(s@),
            PoscarParseError::BadPOSCAR(section, line) => PoscarFault::BadPOSCAR(*section, *line),
        }
    }
}

/// The number one, by which positions are taken as they stand.
pub open spec fn unit() -> Decimal {
    Decimal { unscaled: 1, scale: 0 }
}

/// The real number that `token` writes, times `factor`, with the digits
/// that a structure keeps.
pub open spec fn real_of(token: Seq<char>, factor: Decimal) -> Option<Decimal> {
    match parse_decimal_spec(token) {
        Some(d) => d.times_spec(factor, PLACES, Rounding::HalfEven),
        None => None,
    }
}

/// The three real numbers that the first three tokens write, each times
/// `factor`.
#[verifier::opaque]
pub open spec fn triple_of(tokens: Seq<Seq<char>>, factor: Decimal) -> Option<Seq<Decimal>> {
    if tokens.len() < 3 {
        None
    } else {
        match (real_of(tokens[0], factor), real_of(tokens[1], factor), real_of(tokens[2], factor)) {
            (Some(x), Some(y), Some(z)) => Some(seq![x, y, z]),
            _ => None,
        }
    }
}

/// The scaling factor, on the second line.
pub open spec fn scaling_of(lines: Seq<Seq<char>>) -> Result<Decimal, PoscarFault> {
    if lines.len() <= 1 {
        Err(PoscarFault::BadPOSCAR(PoscarSection::ScalingFactor, 1))
    } else {
        match parse_decimal_spec(trim_of(lines[1])) {
            Some(d) => Ok(d),
            None => Err(PoscarFault::BadPOSCAR(PoscarSection::ScalingFactor, 1)),
        }
    }
}

/// One lattice vector, on the line of index `index`.
pub open spec fn lattice_row_of(lines: Seq<Seq<char>>, index: usize, factor: Decimal) -> Result<
    Seq<Decimal>,
    PoscarFault,
> {
    if lines.len() <= index {
        Err(PoscarFault::BadPOSCAR(PoscarSection::Lattice, index))
    } else {
        match triple_of(tokens_of(lines[index as int]), factor) {
            Some(row) => Ok(row),
            None => Err(PoscarFault::BadPOSCAR(PoscarSection::Lattice, index)),
        }
    }
}

/// The three lattice vectors, on the third to fifth line, each component
/// times the scaling factor.
pub open spec fn lattice_of(lines: Seq<Seq<char>>, factor: Decimal) -> Result<
    Seq<Seq<Decimal>>,
    PoscarFault,
> {
    match lattice_row_of(lines, 2, factor) {
        Err(e) => Err(e),
        Ok(a) => match lattice_row_of(lines, 3, factor) {
            Err(e) => Err(e),
            Ok(b) => match lattice_row_of(lines, 4, factor) {
                Err(e) => Err(e),
                Ok(c) => Ok(seq![a, b, c]),
            },
        },
    }
}

/// The species labels, on the sixth line.
pub open spec fn species_of(lines: Seq<Seq<char>>) -> Result<Seq<Seq<char>>, PoscarFault> {
    if lines.len() <= 5 {
        Err(PoscarFault::BadPOSCAR(PoscarSection::Species, 5))
    } else {
        Ok(tokens_of(lines[5]))
    }
}

/// The counts that the tokens write, where each writes a positive one.
pub open spec fn counts_of(tokens: Seq<Seq<char>>) -> Option<Seq<usize>>
    decreases tokens.len(),
{
    if tokens.len() == 0 {
        Some(Seq::empty())
    } else {
        match (counts_of(tokens.drop_last()), parse_usize_spec(tokens.last())) {
            (Some(before), Some(n)) => if n > 0 {
                Some(before.push(n))
            } else {
                None
            },
            _ => None,
        }
    }
}

/// The count of atoms of each species, on the seventh line: as many counts
/// as there are species, with a sum that fits.
pub open spec fn counts_line_of(lines: Seq<Seq<char>>, species: nat) -> Result<
    Seq<usize>,
    PoscarFault,
> {
    if lines.len() <= 6 {
        Err(PoscarFault::BadPOSCAR(PoscarSection::Counts, 6))
    } else {
        match counts_of(tokens_of(lines[6])) {
            Some(counts) => if counts.len() == species && total(counts) <= usize::MAX {
                Ok(counts)
            } else {
                Err(PoscarFault::BadPOSCAR(PoscarSection::Counts, 6))
            },
            None => Err(PoscarFault::BadPOSCAR(PoscarSection::Counts, 6)),
        }
    }
}

/// Whether the eighth line announces motion constraints, which it does by
/// starting with `S`.
pub open spec fn selective_of(lines: Seq<Seq<char>>) -> Result<bool, PoscarFault> {
    if lines.len() <= 7 {
        Err(PoscarFault::BadPOSCAR(PoscarSection::CoordinateSystem, 7))
    } else {
        Ok(lines[7].len() > 0 && lines[7][0] == 'S')
    }
}

/// The index of the line that names the coordinate system.
pub open spec fn coordinate_line(selective: bool) -> usize {
    if selective {
        8
    } else {
        7
    }
}

/// The coordinate system.
pub open spec fn coordinates_of(lines: Seq<Seq<char>>, selective: bool) -> Result<
    CoordinateSystem,
    PoscarFault,
> {
    let index = coordinate_line(selective);
    if lines.len() <= index {
        Err(PoscarFault::BadPOSCAR(PoscarSection::CoordinateSystem, index))
    } else {
        match coordinate_system_of(lines[index as int]) {
            Some(c) => Ok(c),
            None => Err(PoscarFault::UnknownCoordinateSystem(lines[index as int])),
        }
    }
}

/// The motion constraint that the token of index `j` writes.
pub open spec fn constraint_of(tokens: Seq<Seq<char>>, j: int, index: usize) -> Result<
    bool,
    PoscarFault,
> {
    if tokens.len() <= j {
        Err(PoscarFault::BadPOSCAR(PoscarSection::Positions, index))
    } else {
        match flag_of(tokens[j]) {
            Some(b) => Ok(b),
            None => Err(PoscarFault::BadSelectiveDynamics(tokens[j])),
        }
    }
}

/// The three motion constraints of an atom, which follow its position.
pub open spec fn constraints_of(tokens: Seq<Seq<char>>, index: usize) -> Result<
    Seq<bool>,
    PoscarFault,
> {
    match constraint_of(tokens, 3, index) {
        Err(e) => Err(e),
        Ok(x) => match constraint_of(tokens, 4, index) {
            Err(e) => Err(e),
            Ok(y) => match constraint_of(tokens, 5, index) {
                Err(e) => Err(e),
                Ok(z) => Ok(seq![x, y, z]),
            },
        },
    }
}

/// The position of an atom, on the line of index `index`.
pub open spec fn position_of(lines: Seq<Seq<char>>, index: usize) -> Result<
    Seq<Decimal>,
    PoscarFault,
> {
    if lines.len() <= index {
        Err(PoscarFault::BadPOSCAR(PoscarSection::Positions, index))
    } else {
        match triple_of(tokens_of(lines[index as int]), unit()) {
            Some(p) => Ok(p),
            None => Err(PoscarFault::BadPOSCAR(PoscarSection::Positions, index)),
        }
    }
}

/// The position of the atom on the line of index `index` and, where
/// `selective` holds, its motion constraints.
#[verifier::opaque]
pub open spec fn atom_of(lines: Seq<Seq<char>>, index: usize, selective: bool) -> Result<
    (Seq<Decimal>, Seq<bool>),
    PoscarFault,
> {
    match position_of(lines, index) {
        Err(e) => Err(e),
        Ok(p) => if selective {
            match constraints_of(tokens_of(lines[index as int]), index) {
                Err(e) => Err(e),
                Ok(c) => Ok((p, c)),
            }
        } else {
            Ok((p, Seq::empty()))
        },
    }
}

/// The positions of the first `n` atoms, which stand on the lines from
/// `start` on, and their motion constraints where `selective` holds.
pub open spec fn atoms_from(lines: Seq<Seq<char>>, start: int, n: nat, selective: bool) -> Result<
    (Seq<Seq<Decimal>>, Seq<Seq<bool>>),
    PoscarFault,
>
    decreases n,
{
    if n == 0 {
        Ok((Seq::empty(), Seq::empty()))
    } else {
        match atoms_from(lines, start, (n - 1) as nat, selective) {
            Err(e) => Err(e),
            Ok(before) => match atom_of(lines, (start + n - 1) as usize, selective) {
                Err(e) => Err(e),
                Ok(atom) => Ok((before.0.push(atom.0), before.1.push(atom.1))),
            },
        }
    }
}

/// The positions of all atoms and, if the file announces them and holds an
/// atom, their motion constraints.
pub open spec fn atoms_of(lines: Seq<Seq<char>>, selective: bool, n: nat) -> Result<
    (Seq<Seq<Decimal>>, Option<Seq<Seq<bool>>>),
    PoscarFault,
> {
    match atoms_from(lines, coordinate_line(selective) + 1, n, selective) {
        Err(e) => Err(e),
        Ok(both) => Ok(
            (
                both.0,
                if selective && n > 0 {
                    Some(both.1)
                } else {
                    None
                },
            ),
        ),
    }
}

/// The structure that the lines of a file hold, or the first fault in them.
pub open spec fn structure_of(lines: Seq<Seq<char>>) -> Result<PoscarView, PoscarFault> {
    if lines.len() == 0 {
        Err(PoscarFault::BadPOSCAR(PoscarSection::Title, 0))
    } else {
        match scaling_of(lines) {
            Err(e) => Err(e),
            Ok(factor) => match lattice_of(lines, factor) {
                Err(e) => Err(e),
                Ok(lattice) => match species_of(lines) {
                    Err(e) => Err(e),
                    Ok(species) => match counts_line_of(lines, species.len()) {
                        Err(e) => Err(e),
                        Ok(counts) => match selective_of(lines) {
                            Err(e) => Err(e),
                            Ok(selective) => match coordinates_of(lines, selective) {
                                Err(e) => Err(e),
                                Ok(coord_type) => match atoms_of(lines, selective, total(counts)) {
                                    Err(e) => Err(e),
                                    Ok(atoms) => Ok(
                                        PoscarView {
                                            lattice,
                                            species,
                                            counts,
                                            positions: atoms.0,
                                            coord_type,
                                            constraints: atoms.1,
                                        },
                                    ),
                                },
                            },
                        },
                    },
                },
            },
        }
    }
}

/// The structure that a text holds, or the first fault in it.
pub open spec fn parse_poscar_spec(text: Seq<char>) -> Result<PoscarView, PoscarFault> {
    structure_of(lines_of(text))
}

/// Reads a real number and multiplies it by `factor`.
fn read_real(token: &[char], factor: &Decimal) -> (r: Option<Decimal>)
    ensures
        r == real_of(token@, *factor),
{
    match Decimal::parse(token) {
        Some(d) => d.times(factor, PLACES, Rounding::HalfEven),
        None => None,
    }
}

/// Reads three real numbers from the first three tokens.
fn read_triple(tokens: &Vec<Vec<char>>, factor: &Decimal) -> (r: Option<[Decimal; 3]>)
    ensures
        match triple_of(views(tokens@), *factor) {
            Some(t) => r is Some && r->0@ == t,
            None => r is None,
        },
{
    reveal(triple_of);
    if tokens.len() < 3 {
        return None;
    }
    let x = read_real(tokens[0].as_slice(), factor);
    let y = read_real(tokens[1].as_slice(), factor);
    let z = read_real(tokens[2].as_slice(), factor);
    match (x, y, z) {
        (Some(x), Some(y), Some(z)) => {
            let t = [x, y, z];
            assert(t@ =~= seq![x, y, z]);
            Some(t)
        },
        _ => None,
    }
}

/// Reads the counts, and adds them up.
fn read_counts(tokens: &Vec<Vec<char>>) -> (r: Option<(Vec<usize>, usize)>)
    ensures
        match counts_of(views(tokens@)) {
            Some(c) => if total(c) <= usize::MAX {
                match r {
                    Some(pair) => pair.0@ == c && pair.1 == total(c),
                    None => false,
                }
            } else {
                r is None
            },
            None => r is None,
        },
{
    let ghost all = views(tokens@);
    let mut counts: Vec<usize> = Vec::new();
    let mut sum: usize = 0;
    let mut i: usize = 0;
    assert(all.take(0) =~= Seq::<Seq<char>>::empty());
    while i < tokens.len()
        invariant
            i <= tokens.len(),
            all == views(tokens@),
            counts_of(all.take(i as int)) == Some(counts@),
            sum == total(counts@),
        decreases tokens.len() - i,
    {
        let ghost before = all.take(i as int);
        let ghost next = all.take(i + 1);
        proof {
            assert(next.drop_last() =~= before);
            assert(next.last() == tokens@[i as int]@);
            lemma_counts_prefix(all, i + 1);
        }
        match parse_usize(tokens[i].as_slice()) {
            Some(n) => {
                if n == 0 {
                    return None;
                }
                let ghost grown = counts@.push(n);
                proof {
                    assert(grown.drop_last() =~= counts@);
                    assert(counts_of(next) == Some(grown));
                    lemma_total_prefix(counts_of(all)->0, i + 1);
                }
                if sum > usize::MAX - n {
                    proof {
                        if counts_of(all) is Some {
                            let c = counts_of(all)->0;
                            lemma_counts_take(all, i + 1);
                            assert(c.take(i + 1) == grown);
                        }
                    }
                    return None;
                }
                counts.push(n);
                sum = sum + n;
            },
            None => {
                return None;
            },
        }
        i += 1;
    }
    assert(all.take(i as int) =~= all);
    Some((counts, sum))
}

/// Where the tokens write counts, so does each prefix of them.
pub proof fn lemma_counts_prefix(tokens: Seq<Seq<char>>, k: int)
    requires
        0 <= k <= tokens.len(),
    ensures
        counts_of(tokens.take(k)) is None ==> counts_of(tokens) is None,
    decreases tokens.len() - k,
{
    if k == tokens.len() {
        assert(tokens.take(k) =~= tokens);
    } else {
        lemma_counts_prefix(tokens.drop_last(), k);
        assert(tokens.drop_last().take(k) =~= tokens.take(k));
    }
}

/// The counts of a prefix of the tokens are a prefix of the counts.
pub proof fn lemma_counts_take(tokens: Seq<Seq<char>>, k: int)
    requires
        0 <= k <= tokens.len(),
        counts_of(tokens) is Some,
    ensures
        counts_of(tokens)->0.len() == tokens.len(),
        counts_of(tokens.take(k)) == Some(counts_of(tokens)->0.take(k)),
    decreases tokens.len(),
{
    if tokens.len() == 0 {
        assert(tokens.take(k) =~= tokens);
        assert(counts_of(tokens)->0.take(k) =~= counts_of(tokens)->0);
    } else {
        let front = tokens.drop_last();
        lemma_counts_take(front, if k < tokens.len() {
            k
        } else {
            k - 1
        });
        let c = counts_of(tokens)->0;
        if k == tokens.len() {
            assert(tokens.take(k) =~= tokens);
            assert(c.take(k) =~= c);
        } else {
            assert(front.take(k) =~= tokens.take(k));
            assert(c.take(k) =~= counts_of(front)->0.take(k));
        }
    }
}

/// A sum of counts is at least the sum of each prefix of them.
pub proof fn lemma_total_prefix(counts: Seq<usize>, k: int)
    ensures
        0 <= k <= counts.len() ==> total(counts.take(k)) <= total(counts),
    decreases counts.len() - k,
{
    if 0 <= k <= counts.len() {
        if k == counts.len() {
            assert(counts.take(k) =~= counts);
        } else {
            lemma_total_prefix(counts.drop_last(), k);
            assert(counts.drop_last().take(k) =~= counts.take(k));
        }
    }
}

/// Reads the motion constraint that the token of index `j` writes.
fn read_constraint(tokens: &Vec<Vec<char>>, j: usize, index: usize) -> (r: Result<
    SelectiveDynamics,
    PoscarParseError,
>)
    ensures
        match constraint_of(views(tokens@), j as int, index) {
            Ok(b) => r == Ok::<SelectiveDynamics, PoscarParseError>(SelectiveDynamics(b)),
            Err(f) => r is Err && r->Err_0@ == f,
        },
{
    if tokens.len() <= j {
        return Err(PoscarParseError::BadPOSCAR(PoscarSection::Positions, index));
    }
    match SelectiveDynamics::from_chars(tokens[j].as_slice()) {
        Some(c) => Ok(c),
        None => Err(PoscarParseError::BadSelectiveDynamics(string_from_chars(tokens[j].as_slice()))),
    }
}

/// Reads the three motion constraints of an atom.
fn read_constraints(tokens: &Vec<Vec<char>>, index: usize) -> (r: Result<
    [SelectiveDynamics; 3],
    PoscarParseError,
>)
    ensures
        match constraints_of(views(tokens@), index) {
            Ok(c) => r is Ok && flags(r->Ok_0) == c,
            Err(f) => r is Err && r->Err_0@ == f,
        },
{
    let x = read_constraint(tokens, 3, index)?;
    let y = read_constraint(tokens, 4, index)?;
    let z = read_constraint(tokens, 5, index)?;
    let c = [x, y, z];
    assert(flags(c) =~= seq![x.0, y.0, z.0]);
    Ok(c)
}

/// Reads the atom on the line of index `index`.
fn read_atom(lines: &Vec<Vec<char>>, index: usize, selective: bool) -> (r: Result<
    ([Decimal; 3], Option<[SelectiveDynamics; 3]>),
    PoscarParseError,
>)
    ensures
        match atom_of(views(lines@), index, selective) {
            Ok(atom) => r is Ok && r->Ok_0.0@ == atom.0 && (if selective {
                r->Ok_0.1 is Some && flags(r->Ok_0.1->0) == atom.1
            } else {
                r->Ok_0.1 is None
            }),
            Err(f) => r is Err && r->Err_0@ == f,
        },
        r is Ok ==> index < lines.len(),
{
    reveal(atom_of);
    if lines.len() <= index {
        return Err(PoscarParseError::BadPOSCAR(PoscarSection::Positions, index));
    }
    let tokens = split_whitespace(lines[index].as_slice());
    let one = Decimal::new(1, 0);
    let position = match read_triple(&tokens, &one) {
        Some(p) => p,
        None => {
            return Err(PoscarParseError::BadPOSCAR(PoscarSection::Positions, index));
        },
    };
    if selective {
        let c = read_constraints(&tokens, index)?;
        Ok((position, Some(c)))
    } else {
        Ok((position, None))
    }
}

/// Reads the scaling factor and the three lattice vectors.
fn read_lattice(lines: &Vec<Vec<char>>) -> (r: Result<Lattice, PoscarParseError>)
    ensures
        match scaling_of(views(lines@)) {
            Err(f) => r is Err && r->Err_0@ == f,
            Ok(factor) => match lattice_of(views(lines@), factor) {
                Err(f) => r is Err && r->Err_0@ == f,
                Ok(rows) => r is Ok && r->Ok_0.rows() == rows,
            },
        },
{
    if lines.len() <= 1 {
        return Err(PoscarParseError::BadPOSCAR(PoscarSection::ScalingFactor, 1));
    }
    let trimmed = trim(lines[1].as_slice());
    let factor = match Decimal::parse(trimmed.as_slice()) {
        Some(d) => d,
        None => {
            return Err(PoscarParseError::BadPOSCAR(PoscarSection::ScalingFactor, 1));
        },
    };
    let a = read_lattice_row(lines, 2, &factor)?;
    let b = read_lattice_row(lines, 3, &factor)?;
    let c = read_lattice_row(lines, 4, &factor)?;
    Ok(Lattice::new(a, b, c))
}

/// Reads one lattice vector.
fn read_lattice_row(lines: &Vec<Vec<char>>, index: usize, factor: &Decimal) -> (r: Result<
    [Decimal; 3],
    PoscarParseError,
>)
    ensures
        match lattice_row_of(views(lines@), index, *factor) {
            Ok(row) => r is Ok && r->Ok_0@ == row,
            Err(f) => r is Err && r->Err_0@ == f,
        },
{
    if lines.len() <= index {
        return Err(PoscarParseError::BadPOSCAR(PoscarSection::Lattice, index));
    }
    let tokens = split_whitespace(lines[index].as_slice());
    match read_triple(&tokens, factor) {
        Some(row) => Ok(row),
        None => Err(PoscarParseError::BadPOSCAR(PoscarSection::Lattice, index)),
    }
}

/// The strings of the given characters.
fn strings_of(tokens: &Vec<Vec<char>>) -> (r: Vec<String>)
    ensures
        r.len() == tokens.len(),
        forall|i: int| 0 <= i < r.len() ==> (#[trigger] r[i])@ == tokens[i]@,
{
    let mut r: Vec<String> = Vec::new();
    let mut i: usize = 0;
    while i < tokens.len()
        invariant
            i <= tokens.len(),
            r.len() == i,
            forall|j: int| 0 <= j < i ==> (#[trigger] r[j])@ == tokens[j]@,
        decreases tokens.len() - i,
    {
        r.push(string_from_chars(tokens[i].as_slice()));
        i += 1;
    }
    r
}

/// Reads the line of counts.
fn read_counts_line(lines: &Vec<Vec<char>>, species: usize) -> (r: Result<
    (Vec<usize>, usize),
    PoscarParseError,
>)
    ensures
        match counts_line_of(views(lines@), species as nat) {
            Ok(c) => r is Ok && r->Ok_0.0@ == c && r->Ok_0.1 == total(c),
            Err(f) => r is Err && r->Err_0@ == f,
        },
{
    if lines.len() <= 6 {
        return Err(PoscarParseError::BadPOSCAR(PoscarSection::Counts, 6));
    }
    let tokens = split_whitespace(lines[6].as_slice());
    match read_counts(&tokens) {
        Some(pair) => {
            if pair.0.len() == species {
                Ok(pair)
            } else {
                Err(PoscarParseError::BadPOSCAR(PoscarSection::Counts, 6))
            }
        },
        None => Err(PoscarParseError::BadPOSCAR(PoscarSection::Counts, 6)),
    }
}

/// Reads whether motion constraints are announced, and the coordinate
/// system.
fn read_coordinates(lines: &Vec<Vec<char>>) -> (r: Result<
    (bool, CoordinateSystem),
    PoscarParseError,
>)
    ensures
        match selective_of(views(lines@)) {
            Err(f) => r is Err && r->Err_0@ == f,
            Ok(selective) => match coordinates_of(views(lines@), selective) {
                Err(f) => r is Err && r->Err_0@ == f,
                Ok(c) => r == Ok::<(bool, CoordinateSystem), PoscarParseError>((selective, c)),
            },
        },
{
    if lines.len() <= 7 {
        return Err(PoscarParseError::BadPOSCAR(PoscarSection::CoordinateSystem, 7));
    }
    let selective = lines[7].len() > 0 && lines[7][0] == 'S';
    let index: usize = if selective {
        8
    } else {
        7
    };
    if lines.len() <= index {
        return Err(PoscarParseError::BadPOSCAR(PoscarSection::CoordinateSystem, index));
    }
    match CoordinateSystem::from_chars(lines[index].as_slice()) {
        Some(c) => Ok((selective, c)),
        None => Err(
            PoscarParseError::UnknownCoordinateSystem(string_from_chars(lines[index].as_slice())),
        ),
    }
}

/// Reads the `n` atoms that follow the coordinate system.
fn read_atoms(lines: &Vec<Vec<char>>, selective: bool, n: usize) -> (r: Result<
    (Vec<[Decimal; 3]>, Vec<[SelectiveDynamics; 3]>),
    PoscarParseError,
>)
    ensures
        match atoms_from(views(lines@), coordinate_line(selective) + 1, n as nat, selective) {
            Ok(both) => r is Ok && position_views(r->Ok_0.0@) == both.0 && (selective
                ==> constraint_views(r->Ok_0.1@) == both.1) && (!selective ==> r->Ok_0.1@.len()
                == 0),
            Err(f) => r is Err && r->Err_0@ == f,
        },
{
    let start: usize = if selective {
        9
    } else {
        8
    };
    let ghost ls = views(lines@);
    let mut positions: Vec<[Decimal; 3]> = Vec::new();
    let mut constraints: Vec<[SelectiveDynamics; 3]> = Vec::new();
    let mut i: usize = 0;
    while i < n
        invariant
            i <= n,
            start == coordinate_line(selective) + 1,
            ls == views(lines@),
            i > 0 ==> start + i - 1 < lines.len(),
            atoms_from(ls, start as int, i as nat, selective) is Ok,
            position_views(positions@) == atoms_from(ls, start as int, i as nat, selective)->Ok_0.0,
            selective ==> constraint_views(constraints@) == atoms_from(
                ls,
                start as int,
                i as nat,
                selective,
            )->Ok_0.1,
            !selective ==> constraints@.len() == 0,
        decreases n - i,
    {
        match read_atom(lines, start + i, selective) {
            Err(e) => {
                proof {
                    lemma_atoms_fault(ls, start as int, i as nat, n as nat, selective);
                }
                return Err(e);
            },
            Ok(atom) => {
                let ghost old_positions = positions@;
                let ghost old_constraints = constraints@;
                positions.push(atom.0);
                match atom.1 {
                    Some(c) => {
                        constraints.push(c);
                    },
                    None => {},
                }
                proof {
                    let spec_atom = atom_of(ls, (start + i) as usize, selective)->Ok_0;
                    assert(position_views(positions@) =~= position_views(old_positions).push(
                        spec_atom.0,
                    ));
                    if selective {
                        assert(constraint_views(constraints@) =~= constraint_views(
                            old_constraints,
                        ).push(spec_atom.1));
                    }
                }
            },
        }
        i += 1;
    }
    Ok((positions, constraints))
}

/// A fault in the atom that follows `k` good ones is the fault of every
/// longer list of atoms.
pub proof fn lemma_atoms_fault(lines: Seq<Seq<char>>, start: int, k: nat, n: nat, selective: bool)
    requires
        k < n,
        0 <= start,
        start + k <= usize::MAX,
        atoms_from(lines, start, k, selective) is Ok,
        atom_of(lines, (start + k) as usize, selective) is Err,
    ensures
        atoms_from(lines, start, n, selective) == Err::<
            (Seq<Seq<Decimal>>, Seq<Seq<bool>>),
            PoscarFault,
        >(atom_of(lines, (start + k) as usize, selective)->Err_0),
    decreases n,
{
    if n == k + 1 {
    } else {
        lemma_atoms_fault(lines, start, k, (n - 1) as nat, selective);
    }
}

impl Poscar {
    /// Reads a structure from the characters of a file.
    pub fn from_chars(text: &[char]) -> (r: Result<Poscar, PoscarParseError>)
        ensures
            match parse_poscar_spec(text@) {
                Ok(v) => r is Ok && r->Ok_0@ == v && v.wf(),
                Err(f) => r is Err && r->Err_0@ == f,
            },
    {
        let lines = split_lines(text);
        let ghost ls = views(lines@);
        if lines.len() == 0 {
            return Err(PoscarParseError::BadPOSCAR(PoscarSection::Title, 0));
        }
        let lattice = read_lattice(&lines)?;
        if lines.len() <= 5 {
            return Err(PoscarParseError::BadPOSCAR(PoscarSection::Species, 5));
        }
        let labels = split_whitespace(lines[5].as_slice());
        let species = strings_of(&labels);
        let (num_species, n) = read_counts_line(&lines, species.len())?;
        let (selective, coord_type) = read_coordinates(&lines)?;
        let (positions, constraints) = read_atoms(&lines, selective, n)?;
        let selective_dynamics = if selective && n > 0 {
            Some(constraints)
        } else {
            None
        };
        let poscar = Poscar {
            lattice,
            species,
            num_species,
            positions,
            coord_type,
            selective_dynamics,
        };
        proof {
            let v = parse_poscar_spec(text@)->Ok_0;
            assert(poscar@.species =~= v.species);
            assert(poscar@.positions =~= v.positions);
            assert(poscar@.lattice =~= v.lattice);
            if selective && n > 0 {
                assert(poscar@.constraints->0 =~= v.constraints->0);
            }
            lemma_atoms_shape(
                ls,
                coordinate_line(selective) + 1,
                n as nat,
                selective,
            );
        }
        Ok(poscar)
    }

    /// Reads a structure from the text of a file.
    pub fn from_str(s: &str) -> (r: Result<Poscar, PoscarParseError>)
        ensures
            match parse_poscar_spec(s@) {
                Ok(v) => r is Ok && r->Ok_0@ == v && v.wf(),
                Err(f) => r is Err && r->Err_0@ == f,
            },
    {
        let text = chars_of(s);
        Poscar::from_chars(text.as_slice())
    }
}

/// The atoms that were read are as many as were asked for, and each has
/// three coordinates and, where there are constraints, three of them.
pub proof fn lemma_atoms_shape(lines: Seq<Seq<char>>, start: int, n: nat, selective: bool)
    requires
        atoms_from(lines, start, n, selective) is Ok,
    ensures
        ({
            let both = atoms_from(lines, start, n, selective)->Ok_0;
            &&& both.0.len() == n
            &&& both.1.len() == n
            &&& forall|i: int| 0 <= i < n ==> (#[trigger] both.0[i]).len() == 3
            &&& selective ==> forall|i: int| 0 <= i < n ==> (#[trigger] both.1[i]).len() == 3
        }),
    decreases n,
{
    if n > 0 {
        lemma_atoms_shape(lines, start, (n - 1) as nat, selective);
        lemma_atom_shape(lines, (start + n - 1) as usize, selective);
    }
}

/// An atom that was read has three coordinates and, where there are
/// constraints, three of them.
pub proof fn lemma_atom_shape(lines: Seq<Seq<char>>, index: usize, selective: bool)
    requires
        atom_of(lines, index, selective) is Ok,
    ensures
        atom_of(lines, index, selective)->Ok_0.0.len() == 3,
        selective ==> atom_of(lines, index, selective)->Ok_0.1.len() == 3,
{
    reveal(atom_of);
    reveal(triple_of);
}

/// What stands between two fields of a line.
pub open spec fn gap() -> Seq<char> {
    seq![' ', ' ']
}

/// Three real numbers with the digits that a structure keeps, two spaces
/// between them.
pub open spec fn row_text(row: Seq<Decimal>) -> Seq<char> {
    fixed_text(row[0], PLACES as nat) + gap() + fixed_text(row[1], PLACES as nat) + gap()
        + fixed_text(row[2], PLACES as nat)
}

/// The three lattice vectors, one on each line.
pub open spec fn lattice_text(rows: Seq<Seq<Decimal>>) -> Seq<char> {
    row_text(rows[0]) + seq!['\n'] + row_text(rows[1]) + seq!['\n'] + row_text(rows[2])
}

/// The text of each count.
pub open spec fn count_texts(counts: Seq<usize>) -> Seq<Seq<char>> {
    Seq::new(counts.len(), |i: int| nat_digits(counts[i] as nat))
}

/// Three motion constraints, each followed by two spaces.
pub open spec fn constraint_text(c: Seq<bool>) -> Seq<char> {
    SelectiveDynamics(c[0]).token() + gap() + SelectiveDynamics(c[1]).token() + gap()
        + SelectiveDynamics(c[2]).token() + gap()
}

/// The line of the atom of index `i`: its position, two spaces and, where
/// the structure has them, its motion constraints.
pub open spec fn atom_text(v: PoscarView, i: int) -> Seq<char> {
    row_text(v.positions[i]) + gap() + match v.constraints {
        Some(c) => constraint_text(c[i]),
        None => Seq::empty(),
    }
}

/// The lines that come before the atoms: a title, the scaling factor one,
/// the lattice, the species, the counts, the announcement of motion
/// constraints where there are any, and the coordinate system.
pub open spec fn header_lines(v: PoscarView) -> Seq<Seq<char>> {
    seq![
        "Poscar"@,
        "1.0"@,
        row_text(v.lattice[0]),
        row_text(v.lattice[1]),
        row_text(v.lattice[2]),
        join_with(v.species, seq![' ']),
        join_with(count_texts(v.counts), seq![' ']),
    ] + (if v.constraints is Some {
        seq!["Selective dynamics"@]
    } else {
        Seq::empty()
    }) + seq![v.coord_type.name()]
}

/// The lines of a structure file: the header, then one line for each
/// position.
pub open spec fn poscar_lines(v: PoscarView) -> Seq<Seq<char>> {
    header_lines(v) + Seq::new(v.positions.len(), |i: int| atom_text(v, i))
}

/// The text of a structure file.
pub open spec fn poscar_text(v: PoscarView) -> Seq<char> {
    terminated(poscar_lines(v))
}

/// Appends three real numbers to `out`.
fn push_row(out: &mut Vec<char>, row: &[Decimal; 3])
    ensures
        final(out)@ == old(out)@ + row_text(row@),
{
    row[0].push_fixed(out, PLACES);
    out.push(' ');
    out.push(' ');
    row[1].push_fixed(out, PLACES);
    out.push(' ');
    out.push(' ');
    row[2].push_fixed(out, PLACES);
    assert(out@ =~= old(out)@ + row_text(row@));
}

/// The text of three real numbers.
fn row_line(row: &[Decimal; 3]) -> (r: Vec<char>)
    ensures
        r@ == row_text(row@),
{
    let mut out: Vec<char> = Vec::new();
    push_row(&mut out, row);
    assert(out@ =~= row_text(row@));
    out
}

/// The text of each count.
fn count_lines(counts: &Vec<usize>) -> (r: Vec<Vec<char>>)
    ensures
        views(r@) == count_texts(counts@),
{
    let mut r: Vec<Vec<char>> = Vec::new();
    let mut i: usize = 0;
    while i < counts.len()
        invariant
            i <= counts.len(),
            r.len() == i,
            forall|j: int| 0 <= j < i ==> (#[trigger] r[j])@ == nat_digits(counts[j] as nat),
        decreases counts.len() - i,
    {
        let mut digits: Vec<char> = Vec::new();
        push_nat(&mut digits, counts[i] as u64);
        assert(digits@ =~= nat_digits(counts[i as int] as nat));
        r.push(digits);
        i += 1;
    }
    assert(views(r@) =~= count_texts(counts@));
    r
}

/// The characters of a string literal.
fn literal(s: &str) -> (r: Vec<char>)
    ensures
        r@ == s@,
{
    chars_of(s)
}

impl Lattice {
    /// The three vectors, one on each line.
    pub fn to_string(&self) -> (s: String)
        ensures
            s@ == lattice_text(self.rows()),
    {
        let mut out: Vec<char> = Vec::new();
        push_row(&mut out, &self.a);
        out.push('\n');
        push_row(&mut out, &self.b);
        out.push('\n');
        push_row(&mut out, &self.c);
        assert(out@ =~= lattice_text(self.rows()));
        string_from_chars(out.as_slice())
    }
}

impl Poscar {
    /// The lines that come before the atoms.
    fn header(&self) -> (r: Vec<Vec<char>>)
        ensures
            views(r@) == header_lines(self@),
    {
        let mut r: Vec<Vec<char>> = Vec::new();
        r.push(literal("Poscar"));
        r.push(literal("1.0"));
        r.push(row_line(&self.lattice.a));
        r.push(row_line(&self.lattice.b));
        r.push(row_line(&self.lattice.c));
        let space: Vec<char> = vec![' '];
        assert(space@ =~= seq![' ']);
        r.push(join(&chars_of_all(&self.species), space.as_slice()));
        r.push(join(&count_lines(&self.num_species), space.as_slice()));
        if self.selective_dynamics.is_some() {
            r.push(literal("Selective dynamics"));
        }
        match self.coord_type {
            CoordinateSystem::Cartesian => r.push(literal("Cartesian")),
            CoordinateSystem::Direct => r.push(literal("Direct")),
        }
        assert(views(r@) =~= header_lines(self@));
        r
    }

    /// The line of the atom of index `i`.
    fn atom_line(&self, i: usize) -> (line: Vec<char>)
        requires
            self@.aligned(),
            i < self.positions.len(),
        ensures
            line@ == atom_text(self@, i as int),
    {
        let mut line: Vec<char> = Vec::new();
        push_row(&mut line, &self.positions[i]);
        line.push(' ');
        line.push(' ');
        match &self.selective_dynamics {
            Some(sd) => {
                push_constraints(&mut line, &sd[i]);
            },
            None => {},
        }
        assert(line@ =~= atom_text(self@, i as int));
        line
    }

    /// The text of the structure, as a structure file holds it.
    pub fn to_string(&self) -> (s: String)
        requires
            self@.aligned(),
        ensures
            s@ == poscar_text(self@),
    {
        let mut lines = self.header();
        let ghost head = views(lines@);
        let mut i: usize = 0;
        assert(views(lines@) =~= head + Seq::new(0, |j: int| atom_text(self@, j)));
        while i < self.positions.len()
            invariant
                i <= self.positions.len(),
                self@.aligned(),
                views(lines@) == head + Seq::new(i as nat, |j: int| atom_text(self@, j)),
            decreases self.positions.len() - i,
        {
            let line = self.atom_line(i);
            let ghost before = lines@;
            lines.push(line);
            proof {
                crate::text::lemma_views_push(before, line);
                let sofar = Seq::new(i as nat, |j: int| atom_text(self@, j));
                let next = Seq::new((i + 1) as nat, |j: int| atom_text(self@, j));
                assert(next =~= sofar.push(atom_text(self@, i as int)));
                assert((head + sofar).push(line@) =~= head + next);
            }
            i += 1;
        }
        assert(views(lines@) =~= poscar_lines(self@));
        let text = terminate(&lines);
        string_from_chars(text.as_slice())
    }
}

/// Appends three motion constraints to `out`.
fn push_constraints(out: &mut Vec<char>, c: &[SelectiveDynamics; 3])
    ensures
        final(out)@ == old(out)@ + constraint_text(flags(*c)),
{
    let mut k: usize = 0;
    while k < 3
        invariant
            k <= 3,
            out@ == old(out)@ + (if k >= 1 {
                SelectiveDynamics(c[0].0).token() + gap()
            } else {
                Seq::empty()
            }) + (if k >= 2 {
                SelectiveDynamics(c[1].0).token() + gap()
            } else {
                Seq::empty()
            }) + (if k >= 3 {
                SelectiveDynamics(c[2].0).token() + gap()
            } else {
                Seq::empty()
            }),
        decreases 3 - k,
    {
        let ghost before = out@;
        out.push(
            if c[k].0 {
                'T'
            } else {
                'F'
            },
        );
        out.push(' ');
        out.push(' ');
        assert(out@ =~= before + SelectiveDynamics(c[k as int].0).token() + gap());
        k += 1;
    }
    assert(out@ =~= old(out)@ + constraint_text(flags(*c)));
}

impl CoordinateSystem {
    /// Reads a coordinate system; the error holds the text that names none.
    pub fn from_str(s: &str) -> (r: Result<CoordinateSystem, PoscarParseError>)
        ensures
            match coordinate_system_of(s@) {
                Some(c) => r == Ok::<CoordinateSystem, PoscarParseError>(c),
                None => r is Err && r->Err_0@ == PoscarFault::UnknownCoordinateSystem(s@),
            },
    {
        let chars = chars_of(s);
        match CoordinateSystem::from_chars(chars.as_slice()) {
            Some(c) => Ok(c),
            None => Err(PoscarParseError::UnknownCoordinateSystem(string_from_chars(chars.as_slice()))),
        }
    }
}

/// The sum of the counts, where it fits.
fn sum_of(counts: &Vec<usize>) -> (r: Option<usize>)
    ensures
        r == if total(counts@) <= usize::MAX {
            Some(total(counts@) as usize)
        } else {
            None
        },
{
    let mut sum: usize = 0;
    let mut i: usize = 0;
    assert(counts@.take(0) =~= Seq::<usize>::empty());
    while i < counts.len()
        invariant
            i <= counts.len(),
            sum == total(counts@.take(i as int)),
        decreases counts.len() - i,
    {
        proof {
            assert(counts@.take(i + 1).drop_last() =~= counts@.take(i as int));
            lemma_total_prefix(counts@, i + 1);
        }
        if sum > usize::MAX - counts[i] {
            return None;
        }
        sum = sum + counts[i];
        i += 1;
    }
    assert(counts@.take(i as int) =~= counts@);
    Some(sum)
}

impl Poscar {
    /// Whether the structure keeps its invariants: one count for each
    /// species, and one position and, where there are constraints, one
    /// triple of them for each atom.
    pub fn is_well_formed(&self) -> (r: bool)
        ensures
            r == self@.wf(),
    {
        assert(self@.positions.len() == self.positions.len());
        let n = match sum_of(&self.num_species) {
            Some(n) => n,
            None => {
                return false;
            },
        };
        let counted = self.species.len() == self.num_species.len() && self.positions.len() == n;
        let constrained = match &self.selective_dynamics {
            Some(c) => c.len() == n,
            None => true,
        };
        counted && constrained
    }

    /// Whether there is one triple of constraints for each position, where
    /// there are any: what writing the structure asks for.
    pub fn is_aligned(&self) -> (r: bool)
        ensures
            r == self@.aligned(),
    {
        match &self.selective_dynamics {
            Some(c) => c.len() == self.positions.len(),
            None => true,
        }
    }

    /// The structure of the given parts, where they keep its invariants.
    pub fn new(
        lattice: Lattice,
        species: Vec<String>,
        num_species: Vec<usize>,
        positions: Vec<[Decimal; 3]>,
        coord_type: CoordinateSystem,
        selective_dynamics: Option<Vec<[SelectiveDynamics; 3]>>,
    ) -> (r: Option<Poscar>)
        ensures
            ({
                let p = Poscar {
                    lattice,
                    species,
                    num_species,
                    positions,
                    coord_type,
                    selective_dynamics,
                };
                r == if p@.wf() {
                    Some(p)
                } else {
                    None
                }
            }),
    {
        let p = Poscar { lattice, species, num_species, positions, coord_type, selective_dynamics };
        if p.is_well_formed() {
            Some(p)
        } else {
            None
        }
    }
}

} // verus!
