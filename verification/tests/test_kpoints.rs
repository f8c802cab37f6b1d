use vasp_files::decimal::Decimal;
use vasp_files::geometry::GeometryError;
use vasp_files::kpoints::{Kpoints, KpointsError, KpointsScheme, MeshRequest};
use vasp_files::poscar::Lattice;

#[test]
fn test_kpoints_test_kpoints() {
    let kpoints = Kpoints::new(KpointsScheme::Gamma, [3, 11, 7]);
    println!("{}", kpoints.to_string());
    assert_eq!(kpoints.to_string(), "Autometic mesh\n 0\nGamma\n3  11  7\n0  0  0\n");
}

#[test]
fn lib_test_kpoints() {
    let kpoints = Kpoints::new(KpointsScheme::Gamma, [3, 11, 7]);
    println!("{}", kpoints.to_string());
    assert_eq!(kpoints.to_string(), "Autometic mesh\n 0\nGamma\n3  11  7\n0  0  0\n");
}

#[test]
fn mod_test_kpoints() {
    let kpoints = Kpoints::new(KpointsScheme::Gamma, [3, 11, 7]);
    println!("{}", kpoints.to_string());
    assert_eq!(kpoints.to_string(), "Autometic mesh\n 0\nGamma\n3  11  7\n0  0  0\n");
}

#[test]
fn monkhorst_pack_mesh_text() {
    let kpoints = Kpoints::new(KpointsScheme::MonkhorstPack, [1, 2, 30]);
    assert_eq!(kpoints.to_string(), "Autometic mesh\n 0\nMonkhorst-Pack\n1  2  30\n0  0  0\n");
}

#[test]
fn default_mesh_is_one_gamma_point() {
    let kpoints = Kpoints::default();
    assert_eq!(kpoints.scheme, KpointsScheme::Gamma);
    assert_eq!(kpoints.mesh, [1, 1, 1]);
}

#[test]
fn scheme_is_read_by_its_first_letter() {
    assert_eq!(KpointsScheme::from_str("Gamma"), Ok(KpointsScheme::Gamma));
    assert_eq!(KpointsScheme::from_str("g"), Ok(KpointsScheme::Gamma));
    assert_eq!(KpointsScheme::from_str("monkhorst"), Ok(KpointsScheme::MonkhorstPack));
    assert_eq!(KpointsScheme::from_str("MP"), Ok(KpointsScheme::MonkhorstPack));
    assert_eq!(
        KpointsScheme::from_str("auto"),
        Err(KpointsError::UnknownScheme("auto".to_string()))
    );
    assert_eq!(KpointsScheme::from_str(""), Err(KpointsError::UnknownScheme(String::new())));
    assert_eq!(KpointsScheme::Gamma.to_string(), "Gamma");
    assert_eq!(KpointsScheme::MonkhorstPack.to_string(), "Monkhorst-Pack");
}

#[test]
fn explicit_request_rejects_an_empty_subdivision() {
    let ok = Kpoints::resolve(KpointsScheme::Gamma, MeshRequest::Explicit([3, 11, 7])).unwrap();
    assert_eq!(ok.mesh, [3, 11, 7]);
    assert_eq!(
        Kpoints::resolve(KpointsScheme::Gamma, MeshRequest::Explicit([3, 0, 7])),
        Err(KpointsError::EmptyMesh)
    );
}

#[test]
fn lengths_give_rounded_subdivisions() {
    // 1.131 * 4 = 4.524 -> 5, 0.3125 * 4 = 1.25 -> 1, 0.625 * 4 = 2.5 -> 3
    let lengths = [Decimal::new(1131, 3), Decimal::new(3125, 4), Decimal::new(625, 3)];
    let k = Kpoints::from_lengths(KpointsScheme::Gamma, Decimal::new(4, 0), lengths);
    assert_eq!(k.mesh, [5, 1, 3]);
}

#[test]
fn lengths_never_give_less_than_one() {
    let lengths = [Decimal::new(1, 3), Decimal::new(0, 0), Decimal::new(-5, 0)];
    let k = Kpoints::from_lengths(KpointsScheme::MonkhorstPack, Decimal::new(40, 1), lengths);
    assert_eq!(k.mesh, [1, 1, 1]);
    let huge = [Decimal::new(i64::MAX, 0), Decimal::new(1, 0), Decimal::new(1, 0)];
    let k = Kpoints::from_lengths(KpointsScheme::Gamma, Decimal::new(i64::MAX, 0), huge);
    assert_eq!(k.mesh, [u32::MAX, u32::MAX, u32::MAX]);
}

fn slab() -> Lattice {
    let d = |units: i64| Decimal::new(units, 9);
    Lattice::new(
        [d(5_543_717_000), d(0), d(0)],
        [d(2_771_858_500), d(4_801_000_000), d(0)],
        [d(0), d(0), d(24_052_850_000)],
    )
}

#[test]
fn density_mesh_is_the_same_each_time() {
    let a = Kpoints::from_density(KpointsScheme::Gamma, Decimal::new(40, 1), slab());
    let b = Kpoints::from_density(KpointsScheme::Gamma, Decimal::new(40, 1), slab());
    assert_eq!(a, b);
    assert_eq!(a.unwrap().mesh, [5, 5, 1]);
}

#[test]
fn density_mesh_of_a_cube() {
    // the reciprocal vectors of a cube of edge 2 have the length π
    let d = |units: i64| Decimal::new(units, 0);
    let cube = Lattice::new([d(2), d(0), d(0)], [d(0), d(2), d(0)], [d(0), d(0), d(2)]);
    let dense = Kpoints::from_density(KpointsScheme::Gamma, Decimal::new(10, 0), cube).unwrap();
    assert_eq!(dense.mesh, [31, 31, 31]);
    let sparse = Kpoints::from_density(KpointsScheme::Gamma, Decimal::new(1, 1), cube).unwrap();
    assert_eq!(sparse.mesh, [1, 1, 1]);
    let none = Kpoints::from_density(KpointsScheme::Gamma, Decimal::new(-3, 0), cube).unwrap();
    assert_eq!(none.mesh, [1, 1, 1]);
}

#[test]
fn density_mesh_of_a_cell_without_volume() {
    let d = |units: i64| Decimal::new(units, 0);
    let flat = Lattice::new([d(1), d(0), d(0)], [d(0), d(1), d(0)], [d(1), d(1), d(0)]);
    assert_eq!(
        Kpoints::from_density(KpointsScheme::Gamma, Decimal::new(4, 0), flat),
        Err(GeometryError::DegenerateLattice)
    );
    assert_eq!(
        Kpoints::resolve(KpointsScheme::Gamma, MeshRequest::FromDensity(Decimal::new(4, 0), flat)),
        Err(KpointsError::DegenerateLattice)
    );
    let wide = Lattice::new([d(3000), d(0), d(0)], [d(0), d(1), d(0)], [d(0), d(0), d(1)]);
    assert_eq!(
        Kpoints::resolve(KpointsScheme::Gamma, MeshRequest::FromDensity(Decimal::new(4, 0), wide)),
        Err(KpointsError::OutOfRange)
    );
    let ok = Kpoints::resolve(KpointsScheme::MonkhorstPack, MeshRequest::FromDensity(Decimal::new(4, 0), slab()));
    assert_eq!(ok.unwrap().mesh, [5, 5, 1]);
}

#[test]
fn test_kpoints_test_kpoints_from_density() {
    let kpoints = Kpoints::from_density(KpointsScheme::Gamma, Decimal::new(40, 1), slab()).unwrap();
    println!("{}", kpoints.to_string());
    assert_eq!(kpoints.mesh, [5, 5, 1]);
}

#[test]
fn lib_test_kpoints_from_density() {
    let kpoints = Kpoints::from_density(KpointsScheme::Gamma, Decimal::new(40, 1), slab()).unwrap();
    println!("{}", kpoints.to_string());
    assert_eq!(kpoints.to_string(), "Autometic mesh\n 0\nGamma\n5  5  1\n0  0  0\n");
}

#[test]
fn mod_test_kpoints_from_density() {
    let kpoints = Kpoints::from_density(KpointsScheme::MonkhorstPack, Decimal::new(40, 1), slab()).unwrap();
    println!("{}", kpoints.to_string());
    assert_eq!(kpoints.to_string(), "Autometic mesh\n 0\nMonkhorst-Pack\n5  5  1\n0  0  0\n");
}
