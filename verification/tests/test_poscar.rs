use vasp_files::decimal::Decimal;
use vasp_files::poscar::{
    CoordinateSystem, Lattice, Poscar, PoscarParseError, PoscarSection, SelectiveDynamics,
};

const BULK: &str = "Cubic BN\n   3.57\n 0.0 0.5 0.5\n 0.5 0.0 0.5\n 0.5 0.5 0.0\n B N\n 1 1\nDirect\n 0.00 0.00 0.00\n 0.25 0.25 0.25\n";

const SLAB: &str = "Pt slab with O\n1.0\n5.543717 0.0 0.0\n2.7718585 4.801 0.0\n0.0 0.0 24.05285\nPt O\n2 1\nSelective dynamics\nCartesian\n0.0 0.0 7.5 F F F\n2.77185 1.6003283 9.763 T T T extra\n-1.5e-1 .25 1E1 T F T\n";

fn d(unscaled: i64) -> Decimal {
    Decimal::new(unscaled, 9)
}

fn sd(x: bool, y: bool, z: bool) -> [SelectiveDynamics; 3] {
    [SelectiveDynamics(x), SelectiveDynamics(y), SelectiveDynamics(z)]
}

fn strings(items: &[&str]) -> Vec<String> {
    items.iter().map(|s| s.to_string()).collect()
}

fn bad(section: PoscarSection, line: usize) -> PoscarParseError {
    PoscarParseError::BadPOSCAR(section, line)
}

fn fault(text: &str) -> PoscarParseError {
    Poscar::from_str(text).unwrap_err()
}

#[test]
fn test_poscar_test_read_no_seldyn() {
    let poscar = Poscar::from_str(BULK).unwrap();
    println!("{}", poscar.to_string());
}

#[test]
fn test_poscar_test_read_seldyn() {
    let poscar = Poscar::from_str(SLAB).unwrap();
    println!("{}", poscar.to_string());
}

#[test]
fn lib_test_read_no_seldyn() {
    let poscar = Poscar::from_str(BULK).unwrap();
    println!("{}", poscar.to_string());
    assert!(poscar.selective_dynamics.is_none());
}

#[test]
fn lib_test_read_seldyn() {
    let poscar = Poscar::from_str(SLAB).unwrap();
    println!("{}", poscar.to_string());
    assert!(poscar.selective_dynamics.is_some());
}

#[test]
fn bulk_structure_is_read() {
    let p = Poscar::from_str(BULK).unwrap();
    let h = 1_785_000_000;
    assert_eq!(p.lattice, Lattice::new([d(0), d(h), d(h)], [d(h), d(0), d(h)], [d(h), d(h), d(0)]));
    assert_eq!(p.species, strings(&["B", "N"]));
    assert_eq!(p.num_species, vec![1, 1]);
    assert_eq!(p.positions, vec![[d(0), d(0), d(0)], [d(250_000_000), d(250_000_000), d(250_000_000)]]);
    assert_eq!(p.coord_type, CoordinateSystem::Direct);
    assert_eq!(p.selective_dynamics, None);
    assert_eq!(p.chemical_symbols(), strings(&["B", "N"]));
}

#[test]
fn slab_structure_is_read() {
    let p = Poscar::from_str(SLAB).unwrap();
    assert_eq!(p.lattice.a, [d(5_543_717_000), d(0), d(0)]);
    assert_eq!(p.lattice.b, [d(2_771_858_500), d(4_801_000_000), d(0)]);
    assert_eq!(p.lattice.c, [d(0), d(0), d(24_052_850_000)]);
    assert_eq!(p.species, strings(&["Pt", "O"]));
    assert_eq!(p.num_species, vec![2, 1]);
    assert_eq!(p.chemical_symbols(), strings(&["Pt", "Pt", "O"]));
    assert_eq!(
        p.positions,
        vec![
            [d(0), d(0), d(7_500_000_000)],
            [d(2_771_850_000), d(1_600_328_300), d(9_763_000_000)],
            [d(-150_000_000), d(250_000_000), d(10_000_000_000)],
        ]
    );
    assert_eq!(p.coord_type, CoordinateSystem::Cartesian);
    assert_eq!(
        p.selective_dynamics,
        Some(vec![sd(false, false, false), sd(true, true, true), sd(true, false, true)])
    );
}

#[test]
fn bulk_structure_is_written() {
    let p = Poscar::from_str(BULK).unwrap();
    assert_eq!(
        p.to_string(),
        "Poscar\n1.0\n\
         0.000000000  1.785000000  1.785000000\n\
         1.785000000  0.000000000  1.785000000\n\
         1.785000000  1.785000000  0.000000000\n\
         B N\n1 1\nDirect\n\
         0.000000000  0.000000000  0.000000000  \n\
         0.250000000  0.250000000  0.250000000  \n"
    );
}

#[test]
fn slab_structure_is_written() {
    let p = Poscar::from_str(SLAB).unwrap();
    assert_eq!(
        p.to_string(),
        "Poscar\n1.0\n\
         5.543717000  0.000000000  0.000000000\n\
         2.771858500  4.801000000  0.000000000\n\
         0.000000000  0.000000000  24.052850000\n\
         Pt O\n2 1\nSelective dynamics\nCartesian\n\
         0.000000000  0.000000000  7.500000000  F  F  F  \n\
         2.771850000  1.600328300  9.763000000  T  T  T  \n\
         -0.150000000  0.250000000  10.000000000  T  F  T  \n"
    );
}

#[test]
fn selective_dynamics_writes_one_triple_for_each_atom() {
    let p = Poscar::from_str(SLAB).unwrap();
    let text = p.to_string();
    let atoms: Vec<&str> = text.lines().skip(9).collect();
    assert_eq!(atoms.len(), 3);
    for line in atoms {
        let tokens: Vec<&str> = line.split_whitespace().collect();
        assert_eq!(tokens.len(), 6);
        for flag in &tokens[3..] {
            assert!(*flag == "T" || *flag == "F");
        }
    }
}

#[test]
fn written_structure_reads_back() {
    for text in [BULK, SLAB] {
        let p = Poscar::from_str(text).unwrap();
        let q = Poscar::from_str(&p.to_string()).unwrap();
        assert_eq!(q.lattice, p.lattice);
        assert_eq!(q.species, p.species);
        assert_eq!(q.num_species, p.num_species);
        assert_eq!(q.positions, p.positions);
        assert_eq!(q.coord_type, p.coord_type);
        assert_eq!(q.selective_dynamics, p.selective_dynamics);
    }
}

#[test]
fn structure_without_atoms_reads_back() {
    let p = Poscar {
        lattice: Lattice::new([d(1), d(0), d(0)], [d(0), d(-1), d(0)], [d(0), d(0), d(1)]),
        species: Vec::new(),
        num_species: Vec::new(),
        positions: Vec::new(),
        coord_type: CoordinateSystem::Cartesian,
        selective_dynamics: None,
    };
    let text = p.to_string();
    assert_eq!(
        text,
        "Poscar\n1.0\n0.000000001  0.000000000  0.000000000\n0.000000000  -0.000000001  0.000000000\n0.000000000  0.000000000  0.000000001\n\n\nCartesian\n"
    );
    let q = Poscar::from_str(&text).unwrap();
    assert_eq!(q.lattice, p.lattice);
    assert!(q.species.is_empty() && q.num_species.is_empty() && q.positions.is_empty());
    assert_eq!(q.selective_dynamics, None);
}

#[test]
fn scaling_factor_multiplies_the_lattice_only() {
    let text = "t\n2\n1 0 0\n0 1.5 0\n0 0 0.1234567894\nH\n1\nC\n1 1 1\n";
    let p = Poscar::from_str(text).unwrap();
    assert_eq!(p.lattice.a, [d(2_000_000_000), d(0), d(0)]);
    assert_eq!(p.lattice.b, [d(0), d(3_000_000_000), d(0)]);
    assert_eq!(p.lattice.c, [d(0), d(0), d(246_913_579)]);
    assert_eq!(p.positions, vec![[d(1_000_000_000), d(1_000_000_000), d(1_000_000_000)]]);
}

#[test]
fn positions_are_rounded_to_nine_places() {
    let text = "t\n1\n1 0 0\n0 1 0\n0 0 1\nH\n1\nd\n0.12345678949 0.0000000005 0.0000000015\n";
    let p = Poscar::from_str(text).unwrap();
    assert_eq!(p.positions, vec![[d(123_456_789), d(0), d(2)]]);
}

#[test]
fn missing_lines_are_faults() {
    assert_eq!(fault(""), bad(PoscarSection::Title, 0));
    assert_eq!(fault("t\n"), bad(PoscarSection::ScalingFactor, 1));
    assert_eq!(fault("t\n1.0\n"), bad(PoscarSection::Lattice, 2));
    assert_eq!(fault("t\n1.0\n1 0 0\n0 1 0\n"), bad(PoscarSection::Lattice, 4));
    assert_eq!(fault("t\n1.0\n1 0 0\n0 1 0\n0 0 1\n"), bad(PoscarSection::Species, 5));
    assert_eq!(fault("t\n1.0\n1 0 0\n0 1 0\n0 0 1\nH\n"), bad(PoscarSection::Counts, 6));
    assert_eq!(fault("t\n1.0\n1 0 0\n0 1 0\n0 0 1\nH\n1\n"), bad(PoscarSection::CoordinateSystem, 7));
    assert_eq!(
        fault("t\n1.0\n1 0 0\n0 1 0\n0 0 1\nH\n1\nSelective\n"),
        bad(PoscarSection::CoordinateSystem, 8)
    );
    assert_eq!(fault("t\n1.0\n1 0 0\n0 1 0\n0 0 1\nH\n2\nD\n0 0 0\n"), bad(PoscarSection::Positions, 9));
    assert_eq!(
        fault("t\n1.0\n1 0 0\n0 1 0\n0 0 1\nH\n2\nS\nD\n0 0 0 T T T\n"),
        bad(PoscarSection::Positions, 10)
    );
}

#[test]
fn bad_numbers_are_faults() {
    assert_eq!(fault("t\none\n"), bad(PoscarSection::ScalingFactor, 1));
    assert_eq!(fault("t\n1.0 2.0\n"), bad(PoscarSection::ScalingFactor, 1));
    assert_eq!(fault("t\n1.0\n1 0\n0 1 0\n0 0 1\n"), bad(PoscarSection::Lattice, 2));
    assert_eq!(fault("t\n1.0\n1 0 0\n0 x 0\n0 0 1\n"), bad(PoscarSection::Lattice, 3));
    assert_eq!(fault("t\n1e10\n1e9 0 0\n0 1 0\n0 0 1\n"), bad(PoscarSection::Lattice, 2));
    assert_eq!(fault("t\n1.0\n1 0 0\n0 1 0\n0 0 1\nH\n1.5\nD\n"), bad(PoscarSection::Counts, 6));
    assert_eq!(fault("t\n1.0\n1 0 0\n0 1 0\n0 0 1\nH\n-1\nD\n"), bad(PoscarSection::Counts, 6));
    assert_eq!(fault("t\n1.0\n1 0 0\n0 1 0\n0 0 1\nH\n0\nD\n"), bad(PoscarSection::Counts, 6));
    assert_eq!(
        fault("t\n1.0\n1 0 0\n0 1 0\n0 0 1\nH\n1\nD\n0 0\n"),
        bad(PoscarSection::Positions, 8)
    );
    assert_eq!(
        fault("t\n1.0\n1 0 0\n0 1 0\n0 0 1\nH\n1\nD\n0 0 1e10\n"),
        bad(PoscarSection::Positions, 8)
    );
}

#[test]
fn counts_must_match_the_species() {
    assert_eq!(fault("t\n1.0\n1 0 0\n0 1 0\n0 0 1\nH O\n1\nD\n0 0 0\n"), bad(PoscarSection::Counts, 6));
    assert_eq!(fault("t\n1.0\n1 0 0\n0 1 0\n0 0 1\nH\n1 1\nD\n0 0 0\n"), bad(PoscarSection::Counts, 6));
    assert_eq!(
        fault("t\n1.0\n1 0 0\n0 1 0\n0 0 1\nH O\n18446744073709551615 1\nD\n"),
        bad(PoscarSection::Counts, 6)
    );
}

#[test]
fn unknown_coordinate_system_is_a_fault() {
    assert_eq!(
        fault("t\n1.0\n1 0 0\n0 1 0\n0 0 1\nH\n1\nFractional\n0 0 0\n"),
        PoscarParseError::UnknownCoordinateSystem("Fractional".to_string())
    );
    assert_eq!(
        fault("t\n1.0\n1 0 0\n0 1 0\n0 0 1\nH\n1\n Direct\n0 0 0\n"),
        PoscarParseError::UnknownCoordinateSystem(" Direct".to_string())
    );
    assert_eq!(
        fault("t\n1.0\n1 0 0\n0 1 0\n0 0 1\nH\n1\nSel\n\n0 0 0 T T T\n"),
        PoscarParseError::UnknownCoordinateSystem(String::new())
    );
}

#[test]
fn unknown_constraint_is_a_fault() {
    assert_eq!(
        fault("t\n1.0\n1 0 0\n0 1 0\n0 0 1\nH\n1\nS\nD\n0 0 0 T t F\n"),
        PoscarParseError::BadSelectiveDynamics("t".to_string())
    );
    assert_eq!(
        fault("t\n1.0\n1 0 0\n0 1 0\n0 0 1\nH\n1\nS\nD\n0 0 0 T F\n"),
        bad(PoscarSection::Positions, 9)
    );
    assert_eq!(
        fault("t\n1.0\n1 0 0\n0 1 0\n0 0 1\nH\n1\nS\nD\n0 0 0 X\n"),
        PoscarParseError::BadSelectiveDynamics("X".to_string())
    );
}

#[test]
fn announced_constraints_without_atoms_are_none() {
    let p = Poscar::from_str("t\n1.0\n1 0 0\n0 1 0\n0 0 1\n\n\nSelective dynamics\nDirect\n").unwrap();
    assert_eq!(p.selective_dynamics, None);
    assert!(p.positions.is_empty());
}

#[test]
fn coordinate_system_by_first_letter() {
    assert_eq!(CoordinateSystem::from_chars(&['c']), Some(CoordinateSystem::Cartesian));
    assert_eq!(CoordinateSystem::from_chars(&['C', 'a', 'r', 't']), Some(CoordinateSystem::Cartesian));
    assert_eq!(CoordinateSystem::from_chars(&['d']), Some(CoordinateSystem::Direct));
    assert_eq!(CoordinateSystem::from_chars(&['D', 'i']), Some(CoordinateSystem::Direct));
    assert_eq!(CoordinateSystem::from_chars(&['k']), None);
    assert_eq!(CoordinateSystem::from_chars(&[]), None);
    assert_eq!(CoordinateSystem::Cartesian.to_string(), "Cartesian");
    assert_eq!(CoordinateSystem::Direct.to_string(), "Direct");
}

#[test]
fn constraint_token() {
    assert_eq!(SelectiveDynamics::from_str("T"), Ok(SelectiveDynamics(true)));
    assert_eq!(SelectiveDynamics::from_str("F"), Ok(SelectiveDynamics(false)));
    assert_eq!(
        SelectiveDynamics::from_str("true"),
        Err("Invalid selective dynamics: true".to_string())
    );
    assert_eq!(SelectiveDynamics(true).to_string(), "T");
    assert_eq!(SelectiveDynamics(false).to_string(), "F");
}

#[test]
fn lattice_text() {
    let l = Lattice::new(
        [Decimal::new(15, 1), Decimal::new(0, 0), Decimal::new(0, 0)],
        [Decimal::new(0, 0), Decimal::new(-2, 0), Decimal::new(0, 0)],
        [Decimal::new(0, 0), Decimal::new(0, 0), Decimal::new(12345678915, 10)],
    );
    assert_eq!(
        l.to_string(),
        "1.500000000  0.000000000  0.000000000\n0.000000000  -2.000000000  0.000000000\n0.000000000  0.000000000  1.234567892"
    );
}

#[test]
fn coordinate_system_from_text() {
    assert_eq!(CoordinateSystem::from_str("Direct"), Ok(CoordinateSystem::Direct));
    assert_eq!(CoordinateSystem::from_str("cart"), Ok(CoordinateSystem::Cartesian));
    assert_eq!(
        CoordinateSystem::from_str("Fractional"),
        Err(PoscarParseError::UnknownCoordinateSystem("Fractional".to_string()))
    );
}

#[test]
fn structure_is_made_from_parts_that_fit() {
    let cell = Lattice::new([d(1), d(0), d(0)], [d(0), d(1), d(0)], [d(0), d(0), d(1)]);
    let made = Poscar::new(
        cell,
        strings(&["H", "O"]),
        vec![2, 1],
        vec![[d(0), d(0), d(0)], [d(1), d(1), d(1)], [d(2), d(2), d(2)]],
        CoordinateSystem::Direct,
        Some(vec![sd(true, true, true), sd(false, false, false), sd(true, false, true)]),
    );
    let p = made.unwrap();
    assert!(p.is_well_formed());
    assert!(p.is_aligned());
    assert_eq!(p.chemical_symbols(), strings(&["H", "H", "O"]));
    // a count too many
    assert!(Poscar::new(cell, strings(&["H"]), vec![1, 1], vec![[d(0), d(0), d(0)]; 2], CoordinateSystem::Direct, None).is_none());
    // a position too few
    assert!(Poscar::new(cell, strings(&["H"]), vec![2], vec![[d(0), d(0), d(0)]], CoordinateSystem::Direct, None).is_none());
    // a constraint too few
    assert!(Poscar::new(cell, strings(&["H"]), vec![1], vec![[d(0), d(0), d(0)]], CoordinateSystem::Direct, Some(vec![])).is_none());
    // counts that cannot be added up
    assert!(Poscar::new(cell, strings(&["H", "O"]), vec![usize::MAX, 1], vec![], CoordinateSystem::Direct, None).is_none());
}

fn float(x: Decimal) -> f64 {
    x.unscaled as f64 / 10f64.powi(x.scale as i32)
}

#[test]
fn test_reciprocal_lattice() {
    let pi = std::f64::consts::PI;
    let poscar = Poscar::from_str(SLAB).unwrap();
    let reciprocal_lattice = poscar.lattice.reciprocal().unwrap();
    let a = reciprocal_lattice.a.map(float);
    let b = reciprocal_lattice.b.map(float);
    let c = reciprocal_lattice.c.map(float);

    assert!((a[0] / (2.0 * pi) - 1.80384383e-01) < 1e-6);
    assert!((a[1] / (2.0 * pi) - -1.04144972e-01) < 1e-6);
    assert!((a[2] / (2.0 * pi) - 0.0) < 1e-6);

    assert!((b[0] / (2.0 * pi) - 0.0) < 1e-6);
    assert!((b[1] / (2.0 * pi) - 2.08289944e-01) < 1e-6);
    assert!((b[2] / (2.0 * pi) - 0.0) < 1e-6);

    assert!((c[0] / (2.0 * pi) - 0.0) < 1e-6);
    assert!((c[1] / (2.0 * pi) - 0.0) < 1e-6);
    assert!((c[2] / (2.0 * pi) - 4.15751110e-02) < 1e-6);

    println!("{:?}", reciprocal_lattice.lengths());
}

#[test]
fn real_of_fewer_digits_reads_back_with_the_same_value() {
    let half = Decimal::new(5, 1);
    let p = Poscar::new(
        Lattice::new(
            [Decimal::new(4, 0), Decimal::new(0, 0), Decimal::new(0, 0)],
            [Decimal::new(0, 0), Decimal::new(4, 0), Decimal::new(0, 0)],
            [Decimal::new(0, 0), Decimal::new(0, 0), Decimal::new(40, 1)],
        ),
        strings(&["H"]),
        vec![1],
        vec![[half, Decimal::new(-25, 2), Decimal::new(1234567894, 10)]],
        CoordinateSystem::Direct,
        None,
    )
    .unwrap();
    let text = p.to_string();
    assert!(text.ends_with("0.500000000  -0.250000000  0.123456789  \n"));
    let q = Poscar::from_str(&text).unwrap();
    assert_eq!(q.positions, vec![[d(500_000_000), d(-250_000_000), d(123_456_789)]]);
    assert_eq!(q.positions[0][0], half.rescale(9).unwrap());
    assert_eq!(q.lattice.a, [d(4_000_000_000), d(0), d(0)]);
    assert_eq!(q.lattice.c, [d(0), d(0), d(4_000_000_000)]);
    // what was read reads back as it is
    let r = Poscar::from_str(&q.to_string()).unwrap();
    assert_eq!(r.positions, q.positions);
    assert_eq!(r.lattice, q.lattice);
}

#[test]
fn long_literal_is_read() {
    let text = "t\n1.0000000000000000000\n950.0000000000000000 0 0\n0 1 0\n0 0 1\nH\n1\nD\n0.33333333333333333333333 0 0\n";
    let p = Poscar::from_str(text).unwrap();
    assert_eq!(p.lattice.a, [d(950_000_000_000), d(0), d(0)]);
    assert_eq!(p.positions, vec![[d(333_333_333), d(0), d(0)]]);
}
