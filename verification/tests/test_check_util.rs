use vasp_files::check_util::{check_task, check_vasp_bin, check_vasp_version, vasp_versions};
use vasp_files::util::strip_quotes;

fn strings(items: &[&str]) -> Vec<String> {
    items.iter().map(|s| s.to_string()).collect()
}

#[test]
fn test_vasp_versions() {
    let paths = strings(&["/home/user/.local/VASP/bin/5.4.4", "/home/user/.local/VASP/bin/6.3.1"]);
    let versions = vasp_versions(&paths);
    for version in versions.iter() {
        println!("{}", version);
    }
    assert!(versions.len() > 0);
    assert_eq!(versions, strings(&["5.4.4", "6.3.1"]));
}

#[test]
fn version_of_a_path_without_a_slash_is_the_path() {
    assert_eq!(vasp_versions(&strings(&["6.3.1", "bin/", ""])), strings(&["6.3.1", "", ""]));
}

#[test]
fn installed_version_is_given_back() {
    let versions = strings(&["5.4.4", "6.3.1"]);
    assert_eq!(check_vasp_version("6.3.1", &versions), Ok("6.3.1".to_string()));
}

#[test]
fn missing_version_lists_the_installed_ones() {
    let versions = strings(&["5.4.4", "6.3.1"]);
    assert_eq!(
        check_vasp_version("6.4.0", &versions),
        Err("Vasp version 6.4.0 not found. Currently available versions: 5.4.4, 6.3.1".to_string())
    );
    assert_eq!(
        check_vasp_version("6.4.0", &Vec::new()),
        Err("Vasp version 6.4.0 not found. Currently available versions: ".to_string())
    );
}

#[test]
fn task_with_a_template_is_given_back() {
    let templates = strings(&["job_script.sh", "KPOINTS", "INCAR_relax", "INCAR_singlepoint"]);
    assert_eq!(check_task("relax", &templates), Ok("relax".to_string()));
    assert_eq!(check_task("singlepoint", &templates), Ok("singlepoint".to_string()));
}

#[test]
fn task_without_a_template_lists_the_tasks() {
    let templates = strings(&["job_script.sh", "INCAR_relax", "Vasp.toml", "INCAR_aimd"]);
    assert_eq!(
        check_task("bader", &templates),
        Err("Task 'bader' not found. Available tasks: relax, aimd".to_string())
    );
    // a template name counts only where it holds the marker
    assert_eq!(
        check_task("sh", &templates),
        Err("Task 'sh' not found. Available tasks: relax, aimd".to_string())
    );
}

#[test]
fn binary_of_a_version_is_given_back() {
    let table = vec![
        ("5.4.4".to_string(), strings(&["vasp_std", "vasp_gam"])),
        ("6.3.1".to_string(), strings(&["vasp_std", "vasp_gam", "vasp_ncl"])),
    ];
    let versions = strings(&["5.4.4", "6.3.1"]);
    assert_eq!(check_vasp_bin("6.3.1", "vasp_ncl", &table, &versions), Ok("vasp_ncl".to_string()));
}

#[test]
fn missing_binary_lists_those_of_the_version() {
    let table = vec![
        ("5.4.4".to_string(), strings(&["vasp_std", "vasp_gam"])),
        ("6.3.1".to_string(), strings(&["vasp_std", "vasp_gam", "vasp_ncl"])),
    ];
    let versions = strings(&["5.4.4", "6.3.1"]);
    assert_eq!(
        check_vasp_bin("5.4.4", "vasp_ncl", &table, &versions),
        Err("Vasp binary 'vasp_ncl' not found. Currently available binaries for VASP 5.4.4:\nvasp_std, vasp_gam".to_string())
    );
    assert_eq!(
        check_vasp_bin("6.4.0", "vasp_std", &table, &versions),
        Err("Vasp version 6.4.0 not found. Currently available versions: \n5.4.4, 6.3.1".to_string())
    );
}

#[test]
fn quotes_around_a_text_are_dropped() {
    assert_eq!(strip_quotes("\"g1\""), "g1");
    assert_eq!(strip_quotes("16"), "16");
    assert_eq!(strip_quotes("\"\""), "");
    assert_eq!(strip_quotes("\""), "\"");
    assert_eq!(strip_quotes("\"half"), "\"half");
    assert_eq!(strip_quotes("half\""), "half\"");
    assert_eq!(strip_quotes(""), "");
    assert_eq!(strip_quotes("\"a\"b\""), "a\"b");
}
