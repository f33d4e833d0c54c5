use dep_lens_core::cli::{parse_args, Format, Invocation};

fn args(list: &[&str]) -> Vec<String> {
    list.iter().map(|s| s.to_string()).collect()
}

#[test]
fn defaults_without_arguments() {
    match parse_args(&[]).unwrap() {
        Invocation::Run(a) => {
            assert_eq!(a.path, ".");
            assert_eq!(a.format, Format::Json);
            assert_eq!(a.lang, "en");
            assert!(a.ignore.is_empty());
            assert_eq!(a.project, None);
        }
        other => panic!("unexpected {other:?}"),
    }
}

#[test]
fn reads_every_option() {
    let argv = args(&[
        "--path", "../app", "--format", "md", "--lang", "tr", "--ignore", " a, ,b ", "--ignore",
        "c", "--project", "demo",
    ]);
    match parse_args(&argv).unwrap() {
        Invocation::Run(a) => {
            assert_eq!(a.path, "../app");
            assert_eq!(a.format, Format::Markdown);
            assert_eq!(a.lang, "tr");
            assert_eq!(a.ignore, vec!["a", "b", "c"]);
            assert_eq!(a.project.as_deref(), Some("demo"));
        }
        other => panic!("unexpected {other:?}"),
    }
}

#[test]
fn help_and_version_stop_reading() {
    assert!(matches!(parse_args(&args(&["-h", "--bogus"])).unwrap(), Invocation::Help));
    assert!(matches!(parse_args(&args(&["--version"])).unwrap(), Invocation::Version));
    assert!(matches!(parse_args(&args(&["--path", "x", "-V"])).unwrap(), Invocation::Version));
}

#[test]
fn reports_each_kind_of_error() {
    assert_eq!(parse_args(&args(&["--path"])).unwrap_err(), "--path requires a value");
    assert_eq!(parse_args(&args(&["--format", "xml"])).unwrap_err(), "unsupported format: xml");
    assert_eq!(parse_args(&args(&["--lang", "de"])).unwrap_err(), "unsupported language: de");
    assert_eq!(parse_args(&args(&["--json"])).unwrap_err(), "unknown argument: --json");
    assert_eq!(parse_args(&args(&["--ignore"])).unwrap_err(), "--ignore requires a value");
    assert_eq!(parse_args(&args(&["--project"])).unwrap_err(), "--project requires a value");
}
