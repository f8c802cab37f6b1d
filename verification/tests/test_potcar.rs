use vasp_files::potcar::{
    extract_elements, get_potcars_from_map, get_recommended_potcars, PotcarData, PotcarError,
};

fn strings(items: &[&str]) -> Vec<String> {
    items.iter().map(|s| s.to_string()).collect()
}

fn entry(element: &str, name: &str, enmax: i32, recommended: bool) -> PotcarData {
    PotcarData {
        element: element.to_string(),
        potcar_name: name.to_string(),
        enmax,
        recommended,
    }
}

fn library() -> Vec<PotcarData> {
    vec![
        entry("Fe", "Fe", 268, false),
        entry("Fe", "Fe_pv", 293, true),
        entry("Fe", "Fe_sv", 391, false),
        entry("O", "O", 400, true),
        entry("O", "O_s", 283, false),
        entry("Xx", "Xx", 100, false),
    ]
}

#[test]
fn recommended_potcar_of_each_element() {
    let got = get_recommended_potcars(&strings(&["O", "Fe", "O"]), &library());
    assert_eq!(got, Ok(strings(&["O", "Fe_pv", "O"])));
    assert_eq!(get_recommended_potcars(&[], &library()), Ok(Vec::new()));
}

#[test]
fn element_without_a_recommendation() {
    assert_eq!(
        get_recommended_potcars(&strings(&["O", "Xx", "Yy"]), &library()),
        Err(PotcarError::UnknownElement("Xx".to_string()))
    );
}

#[test]
fn potcar_of_each_element_from_a_list() {
    let map = vec![
        ("Fe".to_string(), "Fe_sv".to_string()),
        ("O".to_string(), "O_s".to_string()),
        ("Fe".to_string(), "Fe".to_string()),
    ];
    assert_eq!(get_potcars_from_map(&strings(&["Fe", "O"]), &map), Ok(strings(&["Fe_sv", "O_s"])));
    assert_eq!(
        get_potcars_from_map(&strings(&["Fe", "H", "N"]), &map),
        Err(PotcarError::UnknownElement("H".to_string()))
    );
}

#[test]
fn elements_stand_on_the_sixth_line() {
    let text = "title\n1.0\n1 0 0\n0 1 0\n0 0 1\n  Fe   O \n1 2\nDirect\n";
    assert_eq!(extract_elements(text), Some(strings(&["Fe", "O"])));
    assert_eq!(extract_elements("title\n1.0\n"), None);
}
