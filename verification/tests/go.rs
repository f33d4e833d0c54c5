use dep_lens_core::model::{DependencyType, Ecosystem};
use dep_lens_core::scanner::go::{escape_module_path, module_cache_entry, parse_go_mod};

const GO_MOD: &str = "module example.com/app\n\ngo 1.22\n\nrequire (\n\tgithub.com/pkg/errors v0.9.1\n\tgolang.org/x/text v0.14.0 // indirect\n)\n\nrequire github.com/stretchr/testify v1.9.0\n";

#[test]
fn parses_block_and_single_requires() {
    let packages = parse_go_mod(GO_MOD);
    let names: Vec<&str> = packages.iter().map(|p| p.name.as_str()).collect();
    assert_eq!(
        names,
        vec![
            "github.com/pkg/errors",
            "golang.org/x/text",
            "github.com/stretchr/testify"
        ]
    );
    assert_eq!(packages[0].version, "v0.9.1");
    assert_eq!(packages[0].ecosystem, Ecosystem::Go);
}

#[test]
fn indirect_modules_are_transitive() {
    let packages = parse_go_mod(GO_MOD);
    assert_eq!(packages[0].dependency_type, DependencyType::Direct);
    assert_eq!(packages[1].dependency_type, DependencyType::Transitive);
    assert_eq!(packages[2].dependency_type, DependencyType::Direct);
}

#[test]
fn escapes_uppercase_in_module_paths() {
    assert_eq!(
        escape_module_path("github.com/Azure/azure-sdk"),
        "github.com/!azure/azure-sdk"
    );
    assert_eq!(escape_module_path("golang.org/x/text"), "golang.org/x/text");
    assert_eq!(
        escape_module_path("github.com/BurntSushi/toml"),
        "github.com/!burnt!sushi/toml"
    );
}

#[test]
fn cache_entry_joins_escaped_path_and_version() {
    assert_eq!(
        module_cache_entry("github.com/Azure/go-autorest", "v14.2.0"),
        "github.com/!azure/go-autorest@v14.2.0"
    );
}

#[test]
fn escaped_paths_are_lowercase_and_distinct() {
    let a = escape_module_path("github.com/ABC/x");
    let b = escape_module_path("github.com/abc/x");
    assert!(!a.chars().any(|c| c.is_ascii_uppercase()));
    assert_ne!(a, b);
    assert_eq!(escape_module_path("ÄÖ"), "ÄÖ");
}

#[test]
fn require_lines_need_a_version() {
    let packages = parse_go_mod("require (\n\tonly/name\n\t// comment v1\n)\nrequire lone\n");
    assert!(packages.is_empty());
}

#[test]
fn escaping_adds_one_character_per_uppercase_letter() {
    let module = "github.com/BurntSushi/TOML";
    let escaped = escape_module_path(module);
    let upper = module.chars().filter(|c| c.is_ascii_uppercase()).count();
    assert_eq!(escaped.chars().count(), module.chars().count() + upper);
    let mut back = String::new();
    let mut bang = false;
    for c in escaped.chars() {
        if c == '!' {
            bang = true;
        } else if bang {
            back.push(c.to_ascii_uppercase());
            bang = false;
        } else {
            back.push(c);
        }
    }
    assert_eq!(back, module);
}
