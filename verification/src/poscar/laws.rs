//! What holds of reading and writing structure files together.

use vstd::prelude::*;
use crate::decimal::{fixed_text, parse_decimal_spec, Decimal};
use crate::decimal_lemmas::{
    lemma_nat_digits_text, lemma_number_text_is_token, lemma_parse_decimal_text,
    lemma_parse_fixed_text, lemma_parse_usize_digits, lemma_rescale_keeps_value,
    lemma_times_one, same_value,
};
use crate::number::{nat_digits, pow10, Rounding};
use crate::poscar::io::{
    atom_of, atoms_from, atoms_of, constraint_of, constraint_text, coordinates_of,
    count_texts, counts_line_of, counts_of, gap, header_lines, lattice_of, lattice_row_of,
    parse_poscar_spec, poscar_lines, poscar_text, real_of, row_text, scaling_of, selective_of,
    species_of, structure_of, triple_of, unit, PoscarFault,
};
use crate::poscar::types::{
    coordinate_system_of, flag_of, total, CoordinateSystem, PoscarView, SelectiveDynamics,
    PLACES,
};
use crate::text::{is_space, join_with, lines_of, tokens_of, trim_of};
use crate::text_lemmas::{
    free_of, is_blank_text, is_line, is_token, lemma_joined_free_of, lemma_lines_of_terminated,
    lemma_tokens_after_blank, lemma_tokens_after_token, lemma_tokens_of_blank,
    lemma_tokens_of_joined, lemma_trim_kept,
};

verus! {

/// Whether every one of the three numbers has the digits after the point
/// that a structure file keeps.
pub open spec fn is_exact_row(row: Seq<Decimal>) -> bool {
    row.len() == 3 && row[0].scale == PLACES && row[1].scale == PLACES && row[2].scale == PLACES
}

/// The real number `d` as a structure file keeps it: with nine digits after
/// the point, rounded half to even where it has more.
pub open spec fn kept(d: Decimal) -> Decimal
    recommends
        d.rescale_spec(PLACES) is Some,
{
    d.rescale_spec(PLACES)->0
}

/// The text of a real number in a structure file.
pub open spec fn field(d: Decimal) -> Seq<char> {
    fixed_text(d, PLACES as nat)
}

/// Whether each of the three numbers can be kept with nine digits after the
/// point.
pub open spec fn is_written_row(row: Seq<Decimal>) -> bool {
    row.len() == 3 && row[0].rescale_spec(PLACES) is Some && row[1].rescale_spec(PLACES) is Some
        && row[2].rescale_spec(PLACES) is Some
}

/// The three numbers as a structure file keeps them.
pub open spec fn kept_row(row: Seq<Decimal>) -> Seq<Decimal> {
    seq![kept(row[0]), kept(row[1]), kept(row[2])]
}

/// The rows as a structure file keeps them.
pub open spec fn kept_rows(rows: Seq<Seq<Decimal>>) -> Seq<Seq<Decimal>> {
    Seq::new(rows.len(), |i: int| kept_row(rows[i]))
}

impl PoscarView {
    /// Whether a structure file can hold the structure: each real number
    /// can be kept with nine digits after the point, each label is one
    /// token, each count is positive, the lines of the file can be counted,
    /// and constraints come with at least one atom.
    pub open spec fn writable(self) -> bool {
        &&& forall|i: int|
            0 <= i < self.lattice.len() ==> is_written_row(#[trigger] self.lattice[i])
        &&& forall|i: int|
            0 <= i < self.positions.len() ==> is_written_row(#[trigger] self.positions[i])
        &&& forall|i: int| 0 <= i < self.species.len() ==> is_token(#[trigger] self.species[i])
        &&& forall|i: int| 0 <= i < self.counts.len() ==> #[trigger] self.counts[i] >= 1
        &&& total(self.counts) + 9 <= usize::MAX
        &&& self.constraints is Some ==> self.atoms() > 0
    }

    /// Whether a structure file holds the structure as it is: it can hold
    /// it, and each real number has nine digits after the point.
    pub open spec fn storable(self) -> bool {
        &&& self.writable()
        &&& forall|i: int| 0 <= i < self.lattice.len() ==> is_exact_row(#[trigger] self.lattice[i])
        &&& forall|i: int|
            0 <= i < self.positions.len() ==> is_exact_row(#[trigger] self.positions[i])
    }

    /// The structure as a structure file keeps it: each real number with
    /// nine digits after the point.
    pub open spec fn kept(self) -> PoscarView {
        PoscarView {
            lattice: kept_rows(self.lattice),
            species: self.species,
            counts: self.counts,
            positions: kept_rows(self.positions),
            coord_type: self.coord_type,
            constraints: self.constraints,
        }
    }
}

/// A real number that has nine digits after the point is kept as it is.
pub proof fn lemma_kept_exact(d: Decimal)
    requires
        d.scale == PLACES,
    ensures
        d.rescale_spec(PLACES) == Some(d),
        kept(d) == d,
{
    let one = pow10(0);
    assert(one == 1);
    assert(d.unscaled * one == d.unscaled) by (nonlinear_arith)
        requires
            one == 1,
    ;
}

/// Rows of numbers that have nine digits after the point are kept as they
/// are.
pub proof fn lemma_kept_rows_exact(rows: Seq<Seq<Decimal>>)
    requires
        forall|i: int| 0 <= i < rows.len() ==> is_exact_row(#[trigger] rows[i]),
    ensures
        kept_rows(rows) == rows,
        forall|i: int| 0 <= i < rows.len() ==> is_written_row(#[trigger] rows[i]),
{
    assert forall|i: int| 0 <= i < rows.len() implies kept_row(rows[i]) == rows[i]
        && is_written_row(#[trigger] rows[i]) by {
        let row = rows[i];
        assert(is_exact_row(row));
        lemma_kept_exact(row[0]);
        lemma_kept_exact(row[1]);
        lemma_kept_exact(row[2]);
        assert(kept_row(row) =~= row);
    }
    assert(kept_rows(rows) =~= rows);
}

/// A real number with fewer digits after the point than a structure file
/// keeps is kept with the same value.
pub proof fn lemma_kept_same_value(d: Decimal)
    requires
        d.scale <= PLACES,
        d.rescale_spec(PLACES) is Some,
    ensures
        same_value(d, kept(d)),
{
    lemma_rescale_keeps_value(d, PLACES);
}

/// There are as many chemical symbols as the counts of the species add up
/// to.
pub proof fn lemma_symbols_counted(species: Seq<Seq<char>>, counts: Seq<usize>, k: nat)
    requires
        k <= counts.len(),
    ensures
        crate::poscar::types::expand(species, counts, k).len() == total(counts.take(k as int)),
    decreases k,
{
    if k == 0 {
        assert(counts.take(0) =~= Seq::<usize>::empty());
    } else {
        lemma_symbols_counted(species, counts, (k - 1) as nat);
        assert(counts.take(k as int).drop_last() =~= counts.take(k - 1));
        assert(counts.take(k as int).last() == counts[k - 1]);
    }
}

/// A structure that keeps its invariants has one chemical symbol for each
/// position.
pub proof fn lemma_symbols_match_positions(v: PoscarView)
    requires
        v.wf(),
    ensures
        v.chemical_symbols().len() == v.positions.len(),
{
    lemma_symbols_counted(v.species, v.counts, v.counts.len());
    assert(v.counts.take(v.counts.len() as int) =~= v.counts);
}

/// Whether `s` holds neither a line feed nor a carriage return.
pub open spec fn is_plain(s: Seq<char>) -> bool {
    free_of(s, '\n') && free_of(s, '\r')
}

/// Plain texts laid end to end are plain.
pub proof fn lemma_plain_concat(a: Seq<char>, b: Seq<char>)
    requires
        is_plain(a),
        is_plain(b),
    ensures
        is_plain(a + b),
{
    let s = a + b;
    assert forall|i: int| 0 <= i < s.len() implies #[trigger] s[i] != '\n' && s[i] != '\r' by {
        if i < a.len() {
            assert(s[i] == a[i]);
        } else {
            assert(s[i] == b[i - a.len()]);
        }
    }
}

/// A plain text can stand as a line.
pub proof fn lemma_plain_is_line(s: Seq<char>)
    requires
        is_plain(s),
    ensures
        is_line(s),
{
    if s.len() > 0 {
        assert(s[s.len() - 1] != '\r');
    }
}

/// The text of a real number of a structure: a token that is plain and that
/// reads back as the number with nine digits after the point, whether a
/// factor of one is written `1.0` or left out.
pub proof fn lemma_real_text(d: Decimal)
    requires
        d.rescale_spec(PLACES) is Some,
    ensures
        is_token(field(d)),
        is_plain(field(d)),
        real_of(field(d), unit()) == Some(kept(d)),
        real_of(field(d), Decimal { unscaled: 10, scale: 1 }) == Some(kept(d)),
{
    let k = kept(d);
    lemma_parse_fixed_text(d, PLACES);
    lemma_number_text_is_token(field(d));
    lemma_times_one(k, 0, Rounding::HalfEven);
    lemma_times_one(k, 1, Rounding::HalfEven);
    assert(pow10(0) == 1);
    assert(pow10(1) == 10) by {
        reveal_with_fuel(pow10, 2);
    }
    assert(k.unscaled * 1 == k.unscaled * pow10(0));
    assert(k.unscaled * 10 == k.unscaled * pow10(1));
}

/// The gap between two fields is white space, and plain.
pub proof fn lemma_gap()
    ensures
        is_blank_text(gap()),
        is_plain(gap()),
        gap().len() == 2,
        is_space(gap()[0]),
{
    assert(is_space(' '));
}

/// The token of a motion constraint reads back as the constraint.
pub proof fn lemma_flag_token(b: bool)
    ensures
        is_token(SelectiveDynamics(b).token()),
        is_plain(SelectiveDynamics(b).token()),
        flag_of(SelectiveDynamics(b).token()) == Some(b),
{
    let t = SelectiveDynamics(b).token();
    assert(!is_space('T') && !is_space('F'));
    assert(t[0] == 'T' || t[0] == 'F');
    assert(seq!['T'] != seq!['F']) by {
        assert(seq!['T'][0] != seq!['F'][0]);
    }
}

/// The tokens of three fields that two gaps part, and of what follows them
/// after one more gap.
pub proof fn lemma_three_fields(a: Seq<char>, b: Seq<char>, c: Seq<char>, rest: Seq<char>)
    requires
        is_token(a),
        is_token(b),
        is_token(c),
    ensures
        tokens_of(a + gap() + b + gap() + c + gap() + rest) == seq![a, b, c] + tokens_of(rest),
        tokens_of(a + gap() + b + gap() + c) == seq![a, b, c],
{
    lemma_gap();
    let g = gap();
    // with what follows
    let s3 = c + (g + rest);
    lemma_tokens_after_token(c, g + rest);
    lemma_tokens_after_blank(g, rest);
    let s2 = b + (g + s3);
    lemma_tokens_after_token(b, g + s3);
    lemma_tokens_after_blank(g, s3);
    let s1 = a + (g + s2);
    lemma_tokens_after_token(a, g + s2);
    lemma_tokens_after_blank(g, s2);
    assert(a + g + b + g + c + g + rest =~= s1);
    assert(seq![a] + (seq![b] + (seq![c] + tokens_of(rest))) =~= seq![a, b, c] + tokens_of(rest));
    // without
    let e = Seq::<char>::empty();
    lemma_tokens_after_token(c, e);
    assert(c + e =~= c);
    let t2 = b + (g + c);
    lemma_tokens_after_token(b, g + c);
    lemma_tokens_after_blank(g, c);
    let t1 = a + (g + t2);
    lemma_tokens_after_token(a, g + t2);
    lemma_tokens_after_blank(g, t2);
    assert(a + g + b + g + c =~= t1);
    assert(seq![a] + (seq![b] + (seq![c] + Seq::<Seq<char>>::empty())) =~= seq![a, b, c]);
}

/// The line of three real numbers of a structure is plain, and its tokens
/// are the texts of the three.
pub proof fn lemma_row_text(row: Seq<Decimal>)
    requires
        is_written_row(row),
    ensures
        is_plain(row_text(row)),
        row_text(row) == field(row[0]) + gap() + field(row[1]) + gap() + field(row[2]),
        tokens_of(row_text(row)) == seq![field(row[0]), field(row[1]), field(row[2])],
{
    lemma_real_text(row[0]);
    lemma_real_text(row[1]);
    lemma_real_text(row[2]);
    lemma_gap();
    let a = field(row[0]);
    let b = field(row[1]);
    let c = field(row[2]);
    lemma_three_fields(a, b, c, Seq::empty());
    lemma_plain_concat(a, gap());
    lemma_plain_concat(a + gap(), b);
    lemma_plain_concat(a + gap() + b, gap());
    lemma_plain_concat(a + gap() + b + gap(), c);
}

/// Three tokens that are the texts of three real numbers of a structure
/// read back as the three with nine digits after the point, whatever
/// follows them.
pub proof fn lemma_triple_of(row: Seq<Decimal>, tokens: Seq<Seq<char>>, factor: Decimal)
    requires
        is_written_row(row),
        tokens.len() >= 3,
        tokens[0] == field(row[0]),
        tokens[1] == field(row[1]),
        tokens[2] == field(row[2]),
        factor == unit() || factor == (Decimal { unscaled: 10, scale: 1 }),
    ensures
        triple_of(tokens, factor) == Some(kept_row(row)),
{
    reveal(triple_of);
    lemma_real_text(row[0]);
    lemma_real_text(row[1]);
    lemma_real_text(row[2]);
}

/// The tokens of three motion constraints, each followed by a gap.
pub proof fn lemma_constraint_text(c: Seq<bool>)
    requires
        c.len() == 3,
    ensures
        is_plain(constraint_text(c)),
        tokens_of(constraint_text(c)) == seq![
            SelectiveDynamics(c[0]).token(),
            SelectiveDynamics(c[1]).token(),
            SelectiveDynamics(c[2]).token(),
        ],
{
    lemma_flag_token(c[0]);
    lemma_flag_token(c[1]);
    lemma_flag_token(c[2]);
    lemma_gap();
    let x = SelectiveDynamics(c[0]).token();
    let y = SelectiveDynamics(c[1]).token();
    let z = SelectiveDynamics(c[2]).token();
    let e = Seq::<char>::empty();
    lemma_three_fields(x, y, z, e);
    lemma_tokens_of_blank(e);
    assert(x + gap() + y + gap() + z + gap() + e =~= constraint_text(c));
    assert(seq![x, y, z] + Seq::<Seq<char>>::empty() =~= seq![x, y, z]);
    lemma_plain_concat(x, gap());
    lemma_plain_concat(x + gap(), y);
    lemma_plain_concat(x + gap() + y, gap());
    lemma_plain_concat(x + gap() + y + gap(), z);
    lemma_plain_concat(x + gap() + y + gap() + z, gap());
}

/// The counts that were written read back.
pub proof fn lemma_counts_of_texts(counts: Seq<usize>)
    requires
        forall|i: int| 0 <= i < counts.len() ==> #[trigger] counts[i] >= 1,
    ensures
        counts_of(count_texts(counts)) == Some(counts),
        forall|i: int|
            0 <= i < counts.len() ==> is_token(#[trigger] count_texts(counts)[i]) && is_plain(
                count_texts(counts)[i],
            ),
    decreases counts.len(),
{
    let texts = count_texts(counts);
    assert forall|i: int| 0 <= i < counts.len() implies is_token(#[trigger] texts[i]) && is_plain(
        texts[i],
    ) by {
        lemma_nat_digits_text(counts[i] as nat);
        lemma_number_text_is_token(texts[i]);
    }
    if counts.len() == 0 {
        assert(counts_of(texts) == Some(Seq::<usize>::empty()));
        assert(counts =~= Seq::<usize>::empty());
    } else {
        let front = counts.drop_last();
        assert forall|i: int| 0 <= i < front.len() implies #[trigger] front[i] >= 1 by {
            assert(front[i] == counts[i]);
        }
        lemma_counts_of_texts(front);
        assert(texts.drop_last() =~= count_texts(front));
        assert(texts.last() == nat_digits(counts.last() as nat));
        lemma_parse_usize_digits(counts.last());
        assert(counts.last() >= 1);
        assert(front.push(counts.last()) =~= counts);
    }
}

/// The line of an atom of position `row` and constraints `flags`.
pub open spec fn atom_line(row: Seq<Decimal>, flags: Option<Seq<bool>>) -> Seq<char> {
    row_text(row) + gap() + match flags {
        Some(c) => constraint_text(c),
        None => Seq::empty(),
    }
}

/// The tokens of the line of an atom.
pub open spec fn atom_tokens(row: Seq<Decimal>, flags: Option<Seq<bool>>) -> Seq<Seq<char>> {
    seq![field(row[0]), field(row[1]), field(row[2])] + match flags {
        Some(c) => seq![
            SelectiveDynamics(c[0]).token(),
            SelectiveDynamics(c[1]).token(),
            SelectiveDynamics(c[2]).token(),
        ],
        None => Seq::empty(),
    }
}

/// The constraints of an atom as the reader gives them: none where the
/// structure has none.
pub open spec fn flags_read(flags: Option<Seq<bool>>) -> Seq<bool> {
    match flags {
        Some(c) => c,
        None => Seq::empty(),
    }
}

/// The line of an atom is plain, and has the tokens of the atom.
pub proof fn lemma_atom_tokens(row: Seq<Decimal>, flags: Option<Seq<bool>>)
    requires
        is_written_row(row),
        flags matches Some(c) ==> c.len() == 3,
    ensures
        is_plain(atom_line(row, flags)),
        tokens_of(atom_line(row, flags)) == atom_tokens(row, flags),
{
    lemma_row_text(row);
    lemma_gap();
    let a = field(row[0]);
    let b = field(row[1]);
    let c = field(row[2]);
    lemma_real_text(row[0]);
    lemma_real_text(row[1]);
    lemma_real_text(row[2]);
    let line = atom_line(row, flags);
    lemma_plain_concat(row_text(row), gap());
    match flags {
        Some(f) => {
            lemma_constraint_text(f);
            lemma_three_fields(a, b, c, constraint_text(f));
            assert(line =~= a + gap() + b + gap() + c + gap() + constraint_text(f));
            lemma_plain_concat(row_text(row) + gap(), constraint_text(f));
        },
        None => {
            let e = Seq::<char>::empty();
            lemma_three_fields(a, b, c, e);
            lemma_tokens_of_blank(e);
            assert(line =~= a + gap() + b + gap() + c + gap() + e);
            assert(row_text(row) + gap() + e =~= row_text(row) + gap());
        },
    }
}

/// A line that has the tokens of an atom reads back as the atom.
pub proof fn lemma_atom_reads(
    row: Seq<Decimal>,
    flags: Option<Seq<bool>>,
    lines: Seq<Seq<char>>,
    index: usize,
)
    requires
        is_written_row(row),
        flags matches Some(c) ==> c.len() == 3,
        index < lines.len(),
        tokens_of(lines[index as int]) == atom_tokens(row, flags),
    ensures
        atom_of(lines, index, flags is Some) == Ok::<(Seq<Decimal>, Seq<bool>), PoscarFault>(
            (kept_row(row), flags_read(flags)),
        ),
{
    reveal(atom_of);
    let tokens = tokens_of(lines[index as int]);
    lemma_triple_of(row, tokens, unit());
    match flags {
        Some(f) => {
            lemma_flag_token(f[0]);
            lemma_flag_token(f[1]);
            lemma_flag_token(f[2]);
            assert(tokens[3] == SelectiveDynamics(f[0]).token());
            assert(tokens[4] == SelectiveDynamics(f[1]).token());
            assert(tokens[5] == SelectiveDynamics(f[2]).token());
            assert(constraint_of(tokens, 3, index) == Ok::<bool, PoscarFault>(f[0]));
            assert(constraint_of(tokens, 4, index) == Ok::<bool, PoscarFault>(f[1]));
            assert(constraint_of(tokens, 5, index) == Ok::<bool, PoscarFault>(f[2]));
            assert(seq![f[0], f[1], f[2]] =~= f);
        },
        None => {},
    }
}

/// The constraints of the atom of index `i`, if the structure has any.
pub open spec fn flags_at(v: PoscarView, i: int) -> Option<Seq<bool>> {
    match v.constraints {
        Some(c) => Some(c[i]),
        None => None,
    }
}

/// The constraints of each atom as the reader gives them.
pub open spec fn read_constraints(v: PoscarView) -> Seq<Seq<bool>> {
    Seq::new(v.positions.len(), |i: int| flags_read(flags_at(v, i)))
}

/// The lines of the first `k` atoms read back as those atoms.
pub proof fn lemma_atom_lines(v: PoscarView, lines: Seq<Seq<char>>, start: int, k: nat)
    requires
        v.wf(),
        v.writable(),
        0 <= start <= 9,
        k <= v.positions.len(),
        start + v.positions.len() <= lines.len(),
        lines.skip(start) == atom_lines(v),
    ensures
        atoms_from(lines, start, k, v.constraints is Some) == Ok::<
            (Seq<Seq<Decimal>>, Seq<Seq<bool>>),
            PoscarFault,
        >((kept_rows(v.positions).take(k as int), read_constraints(v).take(k as int))),
    decreases k,
{
    if k == 0 {
        assert(kept_rows(v.positions).take(0) =~= Seq::<Seq<Decimal>>::empty());
        assert(read_constraints(v).take(0) =~= Seq::<Seq<bool>>::empty());
    } else {
        lemma_atom_lines(v, lines, start, (k - 1) as nat);
        let index = (start + k - 1) as usize;
        let row = v.positions[k - 1];
        let flags = flags_at(v, k - 1);
        assert(lines[start + (k - 1)] == lines.skip(start)[k - 1]);
        assert(lines[start + (k - 1)] == atom_line(row, flags));
        assert(is_written_row(row));
        lemma_atom_tokens(row, flags);
        lemma_atom_reads(row, flags, lines, index);
        assert(kept_rows(v.positions).take(k as int) =~= kept_rows(v.positions).take(k - 1).push(
            kept_row(row),
        ));
        assert(read_constraints(v).take(k as int) =~= read_constraints(v).take(k - 1).push(
            flags_read(flags),
        ));
    }
}

/// What the fixed lines of a structure file hold.
pub proof fn lemma_literals()
    ensures
        is_plain("Poscar"@),
        is_plain("1.0"@),
        is_plain("Selective dynamics"@),
        is_plain("Cartesian"@),
        is_plain("Direct"@),
        "Selective dynamics"@.len() > 0 && "Selective dynamics"@[0] == 'S',
        coordinate_system_of("Cartesian"@) == Some(CoordinateSystem::Cartesian),
        coordinate_system_of("Direct"@) == Some(CoordinateSystem::Direct),
        "Cartesian"@[0] != 'S',
        "Direct"@[0] != 'S',
        parse_decimal_spec(trim_of("1.0"@)) == Some(Decimal { unscaled: 10, scale: 1 }),
{
    reveal_strlit("Poscar");
    reveal_strlit("1.0");
    reveal_strlit("Selective dynamics");
    reveal_strlit("Cartesian");
    reveal_strlit("Direct");
    let one = Decimal { unscaled: 10, scale: 1 };
    assert(one.text() =~= "1.0"@) by {
        reveal_with_fuel(nat_digits, 3);
        assert(nat_digits(10) =~= seq!['1', '0']);
    }
    lemma_parse_decimal_text(one);
    lemma_number_text_is_token("1.0"@);
    lemma_trim_kept("1.0"@);
}

/// The line of the species and the line of the counts are plain and read
/// back.
pub proof fn lemma_species_and_counts(v: PoscarView)
    requires
        v.wf(),
        v.writable(),
    ensures
        is_plain(join_with(v.species, seq![' '])),
        is_plain(join_with(count_texts(v.counts), seq![' '])),
        tokens_of(join_with(v.species, seq![' '])) == v.species,
        counts_of(tokens_of(join_with(count_texts(v.counts), seq![' ']))) == Some(v.counts),
{
    assert forall|i: int| 0 <= i < v.species.len() implies free_of(#[trigger] v.species[i], '\n')
        && free_of(v.species[i], '\r') by {
        let label = v.species[i];
        assert(is_token(label));
        assert(is_space('\n') && is_space('\r'));
        assert forall|j: int| 0 <= j < label.len() implies #[trigger] label[j] != '\n' && label[j]
            != '\r' by {
            assert(!is_space(label[j]));
        }
    }
    lemma_joined_free_of(v.species, '\n');
    lemma_joined_free_of(v.species, '\r');
    lemma_tokens_of_joined(v.species);
    lemma_counts_of_texts(v.counts);
    let texts = count_texts(v.counts);
    lemma_joined_free_of(texts, '\n');
    lemma_joined_free_of(texts, '\r');
    lemma_tokens_of_joined(texts);
}

/// The number of lines that stand before the atoms.
pub open spec fn header_length(v: PoscarView) -> int {
    if v.constraints is Some {
        9
    } else {
        8
    }
}

/// The lines of the atoms.
pub open spec fn atom_lines(v: PoscarView) -> Seq<Seq<char>> {
    Seq::new(v.positions.len(), |i: int| atom_line(v.positions[i], flags_at(v, i)))
}

/// Where the lines of a structure file stand.
pub proof fn lemma_layout(v: PoscarView)
    ensures
        ({
            let lines = poscar_lines(v);
            let start = header_length(v);
            &&& lines.len() == start + v.positions.len()
            &&& lines[0] == "Poscar"@
            &&& lines[1] == "1.0"@
            &&& lines[2] == row_text(v.lattice[0])
            &&& lines[3] == row_text(v.lattice[1])
            &&& lines[4] == row_text(v.lattice[2])
            &&& lines[5] == join_with(v.species, seq![' '])
            &&& lines[6] == join_with(count_texts(v.counts), seq![' '])
            &&& v.constraints is Some ==> lines[7] == "Selective dynamics"@
            &&& lines[start - 1] == v.coord_type.name()
            &&& lines.skip(start) == atom_lines(v)
        }),
{
    let head = header_lines(v);
    let lines = poscar_lines(v);
    let start = header_length(v);
    assert(head.len() == start);
    assert(lines.skip(start) =~= atom_lines(v));
}

/// Every line of a structure file can stand as a line, so that the text of
/// the file has the lines that were written.
pub proof fn lemma_lines_read(v: PoscarView)
    requires
        v.wf(),
        v.writable(),
    ensures
        lines_of(poscar_text(v)) == poscar_lines(v),
{
    let lines = poscar_lines(v);
    let start = header_length(v);
    lemma_layout(v);
    lemma_literals();
    lemma_species_and_counts(v);
    assert(is_written_row(v.lattice[0]) && is_written_row(v.lattice[1]) && is_written_row(
        v.lattice[2],
    ));
    lemma_row_text(v.lattice[0]);
    lemma_row_text(v.lattice[1]);
    lemma_row_text(v.lattice[2]);
    assert forall|i: int| 0 <= i < lines.len() implies is_line(#[trigger] lines[i]) by {
        if i >= start {
            let k = i - start;
            assert(lines[i] == lines.skip(start)[k]);
            assert(lines[i] == atom_line(v.positions[k], flags_at(v, k)));
            assert(is_written_row(v.positions[k]));
            lemma_atom_tokens(v.positions[k], flags_at(v, k));
        }
        lemma_plain_is_line(lines[i]);
    }
    lemma_lines_of_terminated(lines);
}

/// The header of a structure file reads back.
#[verifier::rlimit(40)]
pub proof fn lemma_header_reads(v: PoscarView)
    requires
        v.wf(),
        v.writable(),
    ensures
        ({
            let lines = poscar_lines(v);
            let one = Decimal { unscaled: 10, scale: 1 };
            let selective = v.constraints is Some;
            &&& lines.len() > 0
            &&& scaling_of(lines) == Ok::<Decimal, PoscarFault>(one)
            &&& lattice_of(lines, one) == Ok::<Seq<Seq<Decimal>>, PoscarFault>(
                kept_rows(v.lattice),
            )
            &&& species_of(lines) == Ok::<Seq<Seq<char>>, PoscarFault>(v.species)
            &&& counts_line_of(lines, v.species.len()) == Ok::<Seq<usize>, PoscarFault>(v.counts)
            &&& selective_of(lines) == Ok::<bool, PoscarFault>(selective)
            &&& coordinates_of(lines, selective) == Ok::<CoordinateSystem, PoscarFault>(
                v.coord_type,
            )
        }),
{
    let lines = poscar_lines(v);
    lemma_layout(v);
    lemma_literals();
    lemma_species_and_counts(v);
    lemma_lattice_reads(v, lines);
}

/// The three lines of the lattice read back.
pub proof fn lemma_lattice_reads(v: PoscarView, lines: Seq<Seq<char>>)
    requires
        v.wf(),
        v.writable(),
        lines.len() >= 5,
        lines[2] == row_text(v.lattice[0]),
        lines[3] == row_text(v.lattice[1]),
        lines[4] == row_text(v.lattice[2]),
    ensures
        lattice_of(lines, Decimal { unscaled: 10, scale: 1 }) == Ok::<
            Seq<Seq<Decimal>>,
            PoscarFault,
        >(kept_rows(v.lattice)),
{
    let one = Decimal { unscaled: 10, scale: 1 };
    assert(is_written_row(v.lattice[0]) && is_written_row(v.lattice[1]) && is_written_row(
        v.lattice[2],
    ));
    lemma_row_text(v.lattice[0]);
    lemma_row_text(v.lattice[1]);
    lemma_row_text(v.lattice[2]);
    lemma_triple_of(v.lattice[0], tokens_of(lines[2]), one);
    lemma_triple_of(v.lattice[1], tokens_of(lines[3]), one);
    lemma_triple_of(v.lattice[2], tokens_of(lines[4]), one);
    assert(lattice_row_of(lines, 2, one) == Ok::<Seq<Decimal>, PoscarFault>(
        kept_row(v.lattice[0]),
    ));
    assert(lattice_row_of(lines, 3, one) == Ok::<Seq<Decimal>, PoscarFault>(
        kept_row(v.lattice[1]),
    ));
    assert(lattice_row_of(lines, 4, one) == Ok::<Seq<Decimal>, PoscarFault>(
        kept_row(v.lattice[2]),
    ));
    assert(seq![kept_row(v.lattice[0]), kept_row(v.lattice[1]), kept_row(v.lattice[2])]
        =~= kept_rows(v.lattice));
}

/// The atoms of a structure file read back.
pub proof fn lemma_atoms_read(v: PoscarView)
    requires
        v.wf(),
        v.writable(),
    ensures
        atoms_of(poscar_lines(v), v.constraints is Some, total(v.counts)) == Ok::<
            (Seq<Seq<Decimal>>, Option<Seq<Seq<bool>>>),
            PoscarFault,
        >((kept_rows(v.positions), v.constraints)),
{
    let lines = poscar_lines(v);
    let n = v.positions.len();
    let selective = v.constraints is Some;
    let start = header_length(v);
    lemma_layout(v);
    lemma_atom_lines(v, lines, start, n);
    assert(kept_rows(v.positions).take(n as int) =~= kept_rows(v.positions));
    assert(read_constraints(v).take(n as int) =~= read_constraints(v));
    if selective {
        assert(read_constraints(v) =~= v.constraints->0);
    }
}

/// What is read of what was written: a structure that a structure file can
/// hold, written and read again, is the structure with each real number as
/// the file keeps it, with nine digits after the point.
pub proof fn lemma_poscar_read_back(v: PoscarView)
    requires
        v.wf(),
        v.writable(),
    ensures
        parse_poscar_spec(poscar_text(v)) == Ok::<PoscarView, PoscarFault>(v.kept()),
{
    lemma_lines_read(v);
    lemma_structure_reads(v);
}

/// The lines of a structure file read back as the structure that the file
/// keeps.
#[verifier::rlimit(40)]
pub proof fn lemma_structure_reads(v: PoscarView)
    requires
        v.wf(),
        v.writable(),
    ensures
        structure_of(poscar_lines(v)) == Ok::<PoscarView, PoscarFault>(v.kept()),
{
    let lines = poscar_lines(v);
    let one = Decimal { unscaled: 10, scale: 1 };
    let selective = v.constraints is Some;
    lemma_header_reads(v);
    lemma_atoms_read(v);
    assert(lines.len() > 0);
    assert(scaling_of(lines) == Ok::<Decimal, PoscarFault>(one));
    assert(lattice_of(lines, one) == Ok::<Seq<Seq<Decimal>>, PoscarFault>(kept_rows(v.lattice)));
    assert(species_of(lines) == Ok::<Seq<Seq<char>>, PoscarFault>(v.species));
    assert(counts_line_of(lines, v.species.len()) == Ok::<Seq<usize>, PoscarFault>(v.counts));
    assert(selective_of(lines) == Ok::<bool, PoscarFault>(selective));
    assert(coordinates_of(lines, selective) == Ok::<CoordinateSystem, PoscarFault>(v.coord_type));
    assert(atoms_of(lines, selective, total(v.counts)) == Ok::<
        (Seq<Seq<Decimal>>, Option<Seq<Seq<bool>>>),
        PoscarFault,
    >((kept_rows(v.positions), v.constraints)));
}

/// Round trip: a structure that a structure file holds as it is, written
/// and read again, is the structure.
pub proof fn lemma_poscar_round_trip(v: PoscarView)
    requires
        v.wf(),
        v.storable(),
    ensures
        parse_poscar_spec(poscar_text(v)) == Ok::<PoscarView, PoscarFault>(v),
{
    lemma_poscar_read_back(v);
    lemma_kept_rows_exact(v.lattice);
    lemma_kept_rows_exact(v.positions);
}

/// Round trip in value: in what is read of what was written, a real number
/// that had no more than nine digits after the point has the value that it
/// had.
pub proof fn lemma_poscar_read_back_in_value(v: PoscarView, i: int, j: int)
    requires
        v.wf(),
        v.writable(),
        0 <= i < v.positions.len(),
        0 <= j < 3,
        v.positions[i][j].scale <= PLACES,
    ensures
        parse_poscar_spec(poscar_text(v)) is Ok,
        same_value(v.positions[i][j], parse_poscar_spec(poscar_text(v))->Ok_0.positions[i][j]),
{
    lemma_poscar_read_back(v);
    let row = v.positions[i];
    assert(is_written_row(row));
    assert(v.kept().positions[i] == kept_row(row));
    lemma_kept_same_value(row[j]);
}

/// Selective dynamics: a structure with constraints is written with one line
/// for each atom after nine lines of header, and each such line ends with
/// the three constraints of the atom, each written `T` or `F`.
pub proof fn lemma_constraints_written(v: PoscarView, i: int)
    requires
        v.wf(),
        v.constraints is Some,
        0 <= i < v.atoms(),
    ensures
        poscar_lines(v).len() == 9 + v.atoms(),
        ({
            let c = v.constraints->0[i];
            let tokens = tokens_of(constraint_text(c));
            &&& poscar_lines(v)[9 + i] == row_text(v.positions[i]) + gap() + constraint_text(c)
            &&& tokens == seq![
                SelectiveDynamics(c[0]).token(),
                SelectiveDynamics(c[1]).token(),
                SelectiveDynamics(c[2]).token(),
            ]
            &&& forall|j: int|
                0 <= j < 3 ==> #[trigger] tokens[j] == seq!['T'] || tokens[j] == seq!['F']
        }),
{
    lemma_layout(v);
    let c = v.constraints->0[i];
    assert(c.len() == 3);
    lemma_constraint_text(c);
    assert(poscar_lines(v)[9 + i] == poscar_lines(v).skip(9)[i]);
}

} // verus!
