//! Command-line arguments of the scanner.
use vstd::prelude::*;

use crate::text;

verus! {

/// Output format of the report.
#[derive(Debug, Clone, Copy, PartialEq, Eq, Structural)]
pub enum Format {
    Json,
    Html,
    Csv,
    Markdown,
}

/// The options of one scan.
#[derive(Debug)]
pub struct Args {
    /// Project directory to scan.
    pub path: String,
    pub format: Format,
    /// Report language: `en` or `tr`.
    pub lang: String,
    /// Package names to leave out of the report.
    pub ignore: Vec<String>,
    /// Project name given on the command line.
    pub project: Option<String>,
}

/// What the command line asks for.
#[derive(Debug)]
pub enum Invocation {
    /// Print the usage text.
    Help,
    /// Print the version.
    Version,
    /// Scan with these options.
    Run(Args),
}

/// The value of an [`Args`].
pub struct ArgsView {
    pub path: Seq<char>,
    pub format: Format,
    pub lang: Seq<char>,
    pub ignore: Seq<Seq<char>>,
    pub project: Option<Seq<char>>,
}

/// The value of an [`Invocation`].
pub enum InvocationView {
    Help,
    Version,
    Run(ArgsView),
}

pub open spec fn args_view(a: Args) -> ArgsView {
    ArgsView {
        path: a.path@,
        format: a.format,
        lang: a.lang@,
        ignore: a.ignore@.map_values(|s: String| s@),
        project: crate::model::opt_view(a.project),
    }
}

pub open spec fn invocation_view(i: Invocation) -> InvocationView {
    match i {
        Invocation::Help => InvocationView::Help,
        Invocation::Version => InvocationView::Version,
        Invocation::Run(a) => InvocationView::Run(args_view(a)),
    }
}

/// The options before any argument is read.
pub open spec fn default_args() -> ArgsView {
    ArgsView {
        path: "."@,
        format: Format::Json,
        lang: "en"@,
        ignore: Seq::empty(),
        project: None,
    }
}

/// The format a `--format` value names.
pub open spec fn format_named(v: Seq<char>) -> Option<Format> {
    if v == "json"@ {
        Some(Format::Json)
    } else if v == "html"@ {
        Some(Format::Html)
    } else if v == "csv"@ {
        Some(Format::Csv)
    } else if v == "markdown"@ || v == "md"@ {
        Some(Format::Markdown)
    } else {
        None
    }
}

/// The trimmed, non-empty pieces of a comma-separated list.
pub open spec fn listed_names(parts: Seq<Seq<char>>) -> Seq<Seq<char>>
    decreases parts.len(),
{
    if parts.len() == 0 {
        Seq::empty()
    } else {
        let t = text::trim(parts.last());
        if t.len() > 0 {
            listed_names(parts.drop_last()).push(t)
        } else {
            listed_names(parts.drop_last())
        }
    }
}

/// The outcome of reading the arguments `argv` with the options `a` set so
/// far.
pub open spec fn args_from(argv: Seq<Seq<char>>, a: ArgsView) -> Result<InvocationView, Seq<char>>
    decreases argv.len(),
{
    if argv.len() == 0 {
        Ok(InvocationView::Run(a))
    } else {
        let arg = argv[0];
        let rest = argv.drop_first();
        if arg == "--help"@ || arg == "-h"@ {
            Ok(InvocationView::Help)
        } else if arg == "--version"@ || arg == "-V"@ {
            Ok(InvocationView::Version)
        } else if arg == "--path"@ {
            if rest.len() == 0 {
                Err("--path requires a value"@)
            } else {
                args_from(rest.drop_first(), ArgsView { path: rest[0], ..a })
            }
        } else if arg == "--format"@ {
            if rest.len() == 0 {
                Err("--format requires a value"@)
            } else {
                match format_named(rest[0]) {
                    Some(f) => args_from(rest.drop_first(), ArgsView { format: f, ..a }),
                    None => Err("unsupported format: "@ + rest[0]),
                }
            }
        } else if arg == "--lang"@ {
            if rest.len() == 0 {
                Err("--lang requires a value"@)
            } else if rest[0] == "en"@ || rest[0] == "tr"@ {
                args_from(rest.drop_first(), ArgsView { lang: rest[0], ..a })
            } else {
                Err("unsupported language: "@ + rest[0])
            }
        } else if arg == "--ignore"@ {
            if rest.len() == 0 {
                Err("--ignore requires a value"@)
            } else {
                args_from(
                    rest.drop_first(),
                    ArgsView { ignore: a.ignore + listed_names(text::split(rest[0], ',')), ..a },
                )
            }
        } else if arg == "--project"@ {
            if rest.len() == 0 {
                Err("--project requires a value"@)
            } else {
                args_from(rest.drop_first(), ArgsView { project: Some(rest[0]), ..a })
            }
        } else {
            Err("unknown argument: "@ + arg)
        }
    }
}

/// What the command line `argv` (without the program name) asks for.
pub open spec fn parsed_args(argv: Seq<Seq<char>>) -> Result<InvocationView, Seq<char>> {
    args_from(argv, default_args())
}

fn message(prefix: &str, value: &String) -> (r: String)
    ensures
        r@ == prefix@ + value@,
{
    let mut r = prefix.to_owned();
    r.append(value.as_str());
    r
}

fn format_named_exec(v: &String) -> (r: Option<Format>)
    ensures
        r == format_named(v@),
{
    let c = text::to_chars(v.as_str());
    if text::eq_lit(&c, "json") {
        Some(Format::Json)
    } else if text::eq_lit(&c, "html") {
        Some(Format::Html)
    } else if text::eq_lit(&c, "csv") {
        Some(Format::Csv)
    } else if text::eq_lit(&c, "markdown") || text::eq_lit(&c, "md") {
        Some(Format::Markdown)
    } else {
        None
    }
}

/// Append the trimmed, non-empty names of the comma-separated `value`.
fn push_listed(value: &String, out: &mut Vec<String>)
    ensures
        final(out)@.map_values(|s: String| s@) == old(out)@.map_values(|s: String| s@)
            + listed_names(text::split(value@, ',')),
{
    let parts = text::split_char(&text::to_chars(value.as_str()), ',');
    let ghost ps = text::views(parts@);
    let ghost start = out@.map_values(|s: String| s@);
    let mut i: usize = 0;
    assert(ps.take(0) =~= Seq::<Seq<char>>::empty());
    assert(start + Seq::<Seq<char>>::empty() =~= start);
    while i < parts.len()
        invariant
            i <= parts.len(),
            ps == text::views(parts@),
            out@.map_values(|s: String| s@) == start + listed_names(ps.take(i as int)),
        decreases parts.len() - i,
    {
        assert(ps.take(i + 1).drop_last() =~= ps.take(i as int));
        assert(ps.take(i + 1).last() == parts@[i as int]@);
        let t = text::trim_chars(&parts[i]);
        if t.len() > 0 {
            let ghost before = out@;
            out.push(text::from_chars(&t));
            assert(out@.map_values(|s: String| s@) =~= before.map_values(|s: String| s@).push(t@));
        }
        i += 1;
    }
    assert(ps.take(parts.len() as int) =~= ps);
}

/// Read the command line `argv` (without the program name): a request for
/// the usage text or the version, the scan options, or the error message
/// for a missing value, an unsupported format or language, or an unknown
/// argument.
pub fn parse_args(argv: &[String]) -> (r: Result<Invocation, String>)
    ensures
        match r {
            Ok(inv) => parsed_args(argv@.map_values(|s: String| s@)) == Ok::<
                InvocationView,
                Seq<char>,
            >(invocation_view(inv)),
            Err(e) => parsed_args(argv@.map_values(|s: String| s@)) == Err::<
                InvocationView,
                Seq<char>,
            >(e@),
        },
{
    let ghost av = argv@.map_values(|s: String| s@);
    let mut args = Args {
        path: String::from_str("."),
        format: Format::Json,
        lang: String::from_str("en"),
        ignore: Vec::new(),
        project: None,
    };
    assert(args_view(args) =~= default_args()) by {
        assert(args.ignore@.map_values(|s: String| s@) =~= Seq::<Seq<char>>::empty());
    }
    let mut i: usize = 0;
    assert(av.skip(0) =~= av);
    while i < argv.len()
        invariant
            i <= argv.len(),
            av == argv@.map_values(|s: String| s@),
            parsed_args(av) == args_from(av.skip(i as int), args_view(args)),
        decreases argv.len() - i,
    {
        let ghost rest = av.skip(i as int);
        assert(rest[0] == argv@[i as int]@);
        assert(rest.drop_first() =~= av.skip(i + 1));
        let arg = text::to_chars(argv[i].as_str());
        if text::eq_lit(&arg, "--help") || text::eq_lit(&arg, "-h") {
            return Ok(Invocation::Help);
        } else if text::eq_lit(&arg, "--version") || text::eq_lit(&arg, "-V") {
            return Ok(Invocation::Version);
        }
        let is_path = text::eq_lit(&arg, "--path");
        let is_format = text::eq_lit(&arg, "--format");
        let is_lang = text::eq_lit(&arg, "--lang");
        let is_ignore = text::eq_lit(&arg, "--ignore");
        let is_project = text::eq_lit(&arg, "--project");
        if !(is_path || is_format || is_lang || is_ignore || is_project) {
            return Err(message("unknown argument: ", &argv[i]));
        }
        if i + 1 >= argv.len() {
            assert(rest.drop_first().len() == 0);
            let e = if is_path {
                "--path requires a value"
            } else if is_format {
                "--format requires a value"
            } else if is_lang {
                "--lang requires a value"
            } else if is_ignore {
                "--ignore requires a value"
            } else {
                "--project requires a value"
            };
            return Err(e.to_owned());
        }
        let value = &argv[i + 1];
        assert(rest.drop_first()[0] == value@);
        assert(rest.drop_first().drop_first() =~= av.skip(i + 2));
        if is_path {
            args.path = value.clone();
        } else if is_format {
            match format_named_exec(value) {
                Some(f) => {
                    args.format = f;
                },
                None => {
                    return Err(message("unsupported format: ", value));
                },
            }
        } else if is_lang {
            let vc = text::to_chars(value.as_str());
            if text::eq_lit(&vc, "en") || text::eq_lit(&vc, "tr") {
                args.lang = value.clone();
            } else {
                return Err(message("unsupported language: ", value));
            }
        } else if is_ignore {
            push_listed(value, &mut args.ignore);
        } else {
            args.project = Some(value.clone());
        }
        i += 2;
    }
    Ok(Invocation::Run(args))
}

} // verus!
