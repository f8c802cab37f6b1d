use vasp_files::decimal::Decimal;
use vasp_files::incar::{Incar, IncarError, IncarTag, IncarTagType, TagSchema};

const SAMPLE: &str = "# relaxation\nSYSTEM = Pt slab   # name\nISPIN    =  2\nENCUT = 520\nEDIFF = 1E-6\nLWAVE = .FALSE.\nLCHARG=T\nMAGMOM = 1.0 1.0 -0.5\nLDAUL = 2 -1\n\nNOT_A_TAG = 3\nISIF = three\nbroken line\nISPIN = 1 # again\n";

fn tag(schema: &TagSchema, line: &str) -> Result<IncarTag, IncarError> {
    IncarTag::from_str(schema, line)
}

#[test]
fn test_incar_tag() {
    let schema = TagSchema::standard();
    let tag = IncarTag::from_str(&schema, "ISPIN = 1").unwrap();
    assert_eq!(tag.name(), "ISPIN");
    if let IncarTag::Integer(n, v) = tag {
        assert_eq!(n, "ISPIN");
        assert_eq!(v, 1);
    } else {
        panic!("ISPIN is not a boolean");
    }
}

#[test]
fn test_read_incar() {
    let schema = TagSchema::standard();
    let incar = Incar::from_str(&schema, SAMPLE).unwrap();
    println!("{}", incar.to_string());
}

#[test]
fn tag_line_with_wide_spacing() {
    let schema = TagSchema::standard();
    let t = tag(&schema, "ISPIN    =  1").unwrap();
    assert_eq!(t, IncarTag::Integer("ISPIN".to_string(), 1));
    assert_eq!(t.to_string(), "ISPIN = 1");
}

#[test]
fn comment_is_cut_off() {
    let schema = TagSchema::standard();
    assert_eq!(tag(&schema, "ISPIN = 1 # spin"), tag(&schema, "ISPIN = 1"));
    assert_eq!(tag(&schema, "SYSTEM = a = b # c = d"), Ok(IncarTag::String("SYSTEM".to_string(), "a = b".to_string())));
    assert_eq!(tag(&schema, "# ISPIN = 1"), Err(IncarError::MalformedLine));
    assert_eq!(tag(&schema, "ISPIN # = 1"), Err(IncarError::MalformedLine));
}

#[test]
fn each_kind_is_read() {
    let schema = TagSchema::standard();
    assert_eq!(tag(&schema, "LWAVE = .TRUE."), Ok(IncarTag::Boolean("LWAVE".to_string(), true)));
    for t in ["T", "true", "True", ".TRUE."] {
        assert_eq!(tag(&schema, &format!("LWAVE={}", t)), Ok(IncarTag::Boolean("LWAVE".to_string(), true)));
    }
    for f in ["F", "false", "False", ".FALSE."] {
        assert_eq!(tag(&schema, &format!("LWAVE = {} ", f)), Ok(IncarTag::Boolean("LWAVE".to_string(), false)));
    }
    assert_eq!(tag(&schema, "NSW = -3"), Ok(IncarTag::Integer("NSW".to_string(), -3)));
    assert_eq!(tag(&schema, "EDIFF = 1E-6"), Ok(IncarTag::Real("EDIFF".to_string(), Decimal::new(1, 6))));
    assert_eq!(tag(&schema, "ENCUT = 520"), Ok(IncarTag::Real("ENCUT".to_string(), Decimal::new(520, 0))));
    assert_eq!(
        tag(&schema, "MAGMOM = 1.0   -0.5 2"),
        Ok(IncarTag::RealArray(
            "MAGMOM".to_string(),
            vec![Decimal::new(10, 1), Decimal::new(-5, 1), Decimal::new(2, 0)]
        ))
    );
    assert_eq!(tag(&schema, "LDAUL = 2 -1 2"), Ok(IncarTag::IntegerArray("LDAUL".to_string(), vec![2, -1, 2])));
    assert_eq!(tag(&schema, "LDAUL ="), Ok(IncarTag::IntegerArray("LDAUL".to_string(), vec![])));
    assert_eq!(tag(&schema, " PREC =  Accurate  "), Ok(IncarTag::String("PREC".to_string(), "Accurate".to_string())));
    assert_eq!(tag(&schema, "SYSTEM ="), Ok(IncarTag::String("SYSTEM".to_string(), String::new())));
}

#[test]
fn each_error_is_given() {
    let schema = TagSchema::standard();
    assert_eq!(tag(&schema, "no declaration"), Err(IncarError::MalformedLine));
    assert_eq!(tag(&schema, ""), Err(IncarError::MalformedLine));
    assert_eq!(
        tag(&schema, "NOT_A_REAL_TAG = 1"),
        Err(IncarError::SchemaViolation("NOT_A_REAL_TAG".to_string()))
    );
    assert_eq!(tag(&schema, " = 1"), Err(IncarError::SchemaViolation(String::new())));
    assert_eq!(tag(&schema, "ispin = 1"), Err(IncarError::SchemaViolation("ispin".to_string())));
    assert_eq!(tag(&schema, "LWAVE = yes"), Err(IncarError::InvalidBoolToken("yes".to_string())));
    assert_eq!(tag(&schema, "LWAVE = t"), Err(IncarError::InvalidBoolToken("t".to_string())));
    assert_eq!(tag(&schema, "ISPIN = 1.0"), Err(IncarError::InvalidNumericToken(0, "1.0".to_string())));
    assert_eq!(tag(&schema, "ISPIN = 1 2"), Err(IncarError::InvalidNumericToken(0, "1 2".to_string())));
    assert_eq!(tag(&schema, "ISPIN ="), Err(IncarError::InvalidNumericToken(0, String::new())));
    assert_eq!(tag(&schema, "ENCUT = high"), Err(IncarError::InvalidNumericToken(0, "high".to_string())));
    assert_eq!(
        tag(&schema, "MAGMOM = 1.0 2*1.0 x"),
        Err(IncarError::InvalidNumericToken(1, "2*1.0".to_string()))
    );
    assert_eq!(tag(&schema, "LDAUL = 2 -1 2.5"), Err(IncarError::InvalidNumericToken(2, "2.5".to_string())));
}

#[test]
fn construct_checks_the_table() {
    let schema = TagSchema::standard();
    assert_eq!(
        IncarTag::construct(&schema, "NOT_A_REAL_TAG", IncarTagType::Integer, "1"),
        Err(IncarError::SchemaViolation("NOT_A_REAL_TAG".to_string()))
    );
    assert_eq!(
        IncarTag::construct(&schema, "ISPIN", IncarTagType::Bool, "T"),
        Err(IncarError::SchemaViolation("ISPIN".to_string()))
    );
    assert_eq!(
        IncarTag::construct(&schema, "ISPIN", IncarTagType::Integer, "  2 "),
        Ok(IncarTag::Integer("ISPIN".to_string(), 2))
    );
    assert_eq!(
        IncarTag::construct(&schema, "ISPIN", IncarTagType::Integer, "two"),
        Err(IncarError::InvalidNumericToken(0, "two".to_string()))
    );
    assert_eq!(
        IncarTag::construct(&TagSchema::new(), "ISPIN", IncarTagType::Integer, "2"),
        Err(IncarError::SchemaViolation("ISPIN".to_string()))
    );
}

#[test]
fn each_kind_is_written() {
    assert_eq!(IncarTag::Boolean("LWAVE".to_string(), true).to_string(), "LWAVE = .TRUE.");
    assert_eq!(IncarTag::Boolean("LWAVE".to_string(), false).to_string(), "LWAVE = .FALSE.");
    assert_eq!(IncarTag::Integer("NSW".to_string(), -3).to_string(), "NSW = -3");
    assert_eq!(IncarTag::Real("EDIFF".to_string(), Decimal::new(1, 6)).to_string(), "EDIFF = 0.000001");
    assert_eq!(IncarTag::Real("ENCUT".to_string(), Decimal::new(520, 0)).to_string(), "ENCUT = 520");
    assert_eq!(IncarTag::String("PREC".to_string(), "Accurate".to_string()).to_string(), "PREC = Accurate");
    assert_eq!(
        IncarTag::RealArray("MAGMOM".to_string(), vec![Decimal::new(10, 1), Decimal::new(-5, 1), Decimal::new(12345675, 7)]).to_string(),
        "MAGMOM = 1.000000 -0.500000 1.234568"
    );
    assert_eq!(IncarTag::RealArray("MAGMOM".to_string(), vec![]).to_string(), "MAGMOM = ");
    assert_eq!(
        IncarTag::IntegerArray("LDAUL".to_string(), vec![2, -1]).to_string(),
        "LDAUL = LDAUL = 2 LDAUL = -1"
    );
}

#[test]
fn name_and_kind() {
    let t = IncarTag::Real("ENCUT".to_string(), Decimal::new(520, 0));
    assert_eq!(t.name(), "ENCUT");
    assert!(t.is_name("ENCUT"));
    assert!(!t.is_name("ENCU"));
    assert_eq!(t.kind(), IncarTagType::Real);
}

#[test]
fn table_is_asked_by_exact_name() {
    let schema = TagSchema::standard();
    assert_eq!(schema.lookup("ISPIN"), Some(IncarTagType::Integer));
    assert_eq!(schema.lookup("MAGMOM"), Some(IncarTagType::RealArray));
    assert_eq!(schema.lookup("ADDGRID"), Some(IncarTagType::Bool));
    assert_eq!(schema.lookup("TEEND"), Some(IncarTagType::Real));
    assert_eq!(schema.lookup("ispin"), None);
    assert_eq!(schema.lookup("ISPIN "), None);
    assert_eq!(schema.lookup(""), None);
    let mut own = TagSchema::new();
    assert_eq!(own.lookup("ISPIN"), None);
    assert!(own.register("ISPIN", IncarTagType::String));
    assert!(!own.register("ISPIN", IncarTagType::Integer));
    assert_eq!(own.lookup("ISPIN"), Some(IncarTagType::String));
}

#[test]
fn document_is_read_leniently() {
    let schema = TagSchema::standard();
    let incar = Incar::from_str(&schema, SAMPLE).unwrap();
    assert_eq!(incar.len(), 8);
    assert_eq!(incar.get("ISPIN"), Some(&IncarTag::Integer("ISPIN".to_string(), 1)));
    assert_eq!(incar.get("SYSTEM"), Some(&IncarTag::String("SYSTEM".to_string(), "Pt slab".to_string())));
    assert_eq!(incar.get("LCHARG"), Some(&IncarTag::Boolean("LCHARG".to_string(), true)));
    assert_eq!(incar.get("ISIF"), None);
    assert_eq!(incar.get("NOT_A_TAG"), None);
    assert_eq!(
        incar.to_string(),
        "EDIFF = 0.000001\nENCUT = 520\nISPIN = 1\nLCHARG = .TRUE.\nLDAUL = LDAUL = 2 LDAUL = -1\nLWAVE = .FALSE.\nMAGMOM = 1.000000 1.000000 -0.500000\nSYSTEM = Pt slab"
    );
}

#[test]
fn document_is_read_strictly() {
    let schema = TagSchema::standard();
    assert_eq!(
        Incar::parse(&schema, SAMPLE, true).unwrap_err(),
        IncarError::SchemaViolation("NOT_A_TAG".to_string())
    );
    assert_eq!(
        Incar::parse(&schema, "ISPIN = 2\n\n  # only a comment\nISIF = three\nbroken\n", true).unwrap_err(),
        IncarError::InvalidNumericToken(0, "three".to_string())
    );
    assert_eq!(Incar::parse(&schema, "ISPIN = 2\nbroken\n", true).unwrap_err(), IncarError::MalformedLine);
    let ok = Incar::parse(&schema, "ISPIN = 2\n\n # note\nENCUT = 400 # eV\n", true).unwrap();
    assert_eq!(ok.to_string(), "ENCUT = 400\nISPIN = 2");
    let lenient = Incar::parse(&schema, "ISPIN = 2\nbroken\n", false).unwrap();
    assert_eq!(lenient.to_string(), "ISPIN = 2");
}

#[test]
fn update_puts_and_replaces() {
    let schema = TagSchema::standard();
    let mut incar = Incar::new();
    assert_eq!(incar.to_string(), "");
    assert_eq!(incar.update(&schema, IncarTag::Integer("NSW".to_string(), 10)), Ok(()));
    assert_eq!(incar.update(&schema, IncarTag::Integer("IBRION".to_string(), 2)), Ok(()));
    assert_eq!(incar.update(&schema, IncarTag::Integer("NSW".to_string(), 20)), Ok(()));
    assert_eq!(incar.update(&schema, IncarTag::Real("POTIM".to_string(), Decimal::new(5, 1))), Ok(()));
    assert_eq!(incar.len(), 3);
    assert_eq!(incar.to_string(), "IBRION = 2\nNSW = 20\nPOTIM = 0.5");
    let names: Vec<&str> = incar.tags().iter().map(|t| t.name()).collect();
    assert_eq!(names, vec!["IBRION", "NSW", "POTIM"]);
}

#[test]
fn update_of_an_unregistered_name_changes_nothing() {
    let schema = TagSchema::standard();
    let mut incar = Incar::from_str(&schema, "ISPIN = 2\nENCUT = 400\n").unwrap();
    let before = incar.to_string();
    assert_eq!(
        incar.update(&schema, IncarTag::Integer("NOT_A_REAL_TAG".to_string(), 1)),
        Err(IncarError::SchemaViolation("NOT_A_REAL_TAG".to_string()))
    );
    assert_eq!(incar.to_string(), before);
    assert_eq!(incar.len(), 2);
}

#[test]
fn extend_is_all_or_nothing() {
    let schema = TagSchema::standard();
    let mut incar = Incar::from_str(&schema, "ISPIN = 2\n").unwrap();
    let bad = vec![
        IncarTag::Integer("NSW".to_string(), 10),
        IncarTag::Integer("BOGUS".to_string(), 1),
        IncarTag::Integer("WORSE".to_string(), 1),
    ];
    assert_eq!(incar.extend(&schema, bad), Err(IncarError::SchemaViolation("BOGUS".to_string())));
    assert_eq!(incar.to_string(), "ISPIN = 2");
    let good = vec![
        IncarTag::Integer("NSW".to_string(), 10),
        IncarTag::Integer("ISPIN".to_string(), 1),
        IncarTag::Integer("NSW".to_string(), 30),
    ];
    assert_eq!(incar.extend(&schema, good), Ok(()));
    assert_eq!(incar.to_string(), "ISPIN = 1\nNSW = 30");
}

#[test]
fn document_from_tags() {
    let schema = TagSchema::standard();
    let incar = Incar::from_tags(
        &schema,
        vec![IncarTag::String("PREC".to_string(), "Normal".to_string()), IncarTag::Boolean("LDAU".to_string(), true)],
    )
    .unwrap();
    assert_eq!(incar.to_string(), "LDAU = .TRUE.\nPREC = Normal");
    assert_eq!(
        Incar::from_tags(&schema, vec![IncarTag::Boolean("NOPE".to_string(), true)]).unwrap_err(),
        IncarError::SchemaViolation("NOPE".to_string())
    );
}

#[test]
fn written_document_reads_back() {
    let schema = TagSchema::standard();
    let text = "EDIFF = 0.000001\nENCUT = 520\nISPIN = 1\nLCHARG = .TRUE.\nLDAUL = \nLWAVE = .FALSE.\nMAGMOM = 1.000000 1.000000 -0.500000\nSYSTEM = Pt slab";
    let incar = Incar::from_str(&schema, text).unwrap();
    assert_eq!(incar.to_string(), text);
    let again = Incar::from_str(&schema, &incar.to_string()).unwrap();
    assert_eq!(again.tags(), incar.tags());
}

#[test]
fn array_of_integers_does_not_read_back() {
    let schema = TagSchema::standard();
    let incar = Incar::from_tags(&schema, vec![IncarTag::IntegerArray("LDAUL".to_string(), vec![2, -1])]).unwrap();
    let again = Incar::from_str(&schema, &incar.to_string()).unwrap();
    assert_eq!(again.len(), 0);
}

#[test]
fn array_real_of_other_digits_reads_back_as_the_array_keeps_it() {
    let schema = TagSchema::standard();
    let tag = IncarTag::RealArray(
        "MAGMOM".to_string(),
        vec![Decimal::new(15, 1), Decimal::new(-2, 0), Decimal::new(12345675, 7), Decimal::new(12345685, 7)],
    );
    let incar = Incar::from_tags(&schema, vec![tag]).unwrap();
    assert_eq!(incar.to_string(), "MAGMOM = 1.500000 -2.000000 1.234568 1.234568");
    let again = Incar::from_str(&schema, &incar.to_string()).unwrap();
    assert_eq!(
        again.get("MAGMOM"),
        Some(&IncarTag::RealArray(
            "MAGMOM".to_string(),
            vec![
                Decimal::new(1_500_000, 6),
                Decimal::new(-2_000_000, 6),
                Decimal::new(1_234_568, 6),
                Decimal::new(1_234_568, 6)
            ]
        ))
    );
    assert_eq!(again.to_string(), incar.to_string());
}

#[test]
fn long_literal_in_a_tag_is_read() {
    let schema = TagSchema::standard();
    assert_eq!(
        tag(&schema, "ENCUT = 950.0000000000000000"),
        Ok(IncarTag::Real("ENCUT".to_string(), Decimal::new(950_000_000_000_000_000, 15)))
    );
    assert_eq!(
        tag(&schema, "ENCUT = 1e30"),
        Err(IncarError::InvalidNumericToken(0, "1e30".to_string()))
    );
}
