use dep_lens_core::project::{cargo_toml_package_name, detect_project_name};

#[test]
fn cargo_toml_name_comes_from_the_package_table() {
    let raw = "[workspace]\nname = \"not-this\"\n\n[package]\nversion = \"1.0.0\"\nname   =  \"dep-lens-core\"\n";
    assert_eq!(cargo_toml_package_name(raw), Some("dep-lens-core".to_string()));
    assert_eq!(cargo_toml_package_name("[package]\nname = \"\"\n"), None);
    assert_eq!(cargo_toml_package_name("name = \"x\"\n"), None);
    assert_eq!(cargo_toml_package_name("[dependencies]\n[package]\nnames = 1\nname=\"y\""), Some("y".to_string()));
}

#[test]
fn project_name_prefers_package_json_then_cargo_then_directory() {
    assert_eq!(
        detect_project_name(Some(r#"{"name": " web-app "}"#), Some("[package]\nname = \"core\""), Some("dir")),
        "web-app"
    );
    assert_eq!(
        detect_project_name(Some(r#"{"name": "  "}"#), Some("[package]\nname = \"core\""), Some("dir")),
        "core"
    );
    assert_eq!(detect_project_name(Some("not json"), None, Some("dir")), "dir");
    assert_eq!(detect_project_name(None, None, None), "unknown-project");
}
