use solscrape::config::{parse_args, Args};
use solscrape::exclusion::{build_excluded_dirs, ExclusionSet};

fn command(args: &[&str]) -> Vec<String> {
    let mut line = vec![String::from("solscrape")];
    line.extend(args.iter().map(|a| a.to_string()));
    line
}

#[test]
fn default_options_are_all_off() {
    let args = Args::default();
    assert_eq!(args.source, "");
    assert_eq!(args.destination, ".");
    assert_eq!(args.output_name, None);
    assert!(!args.is_local);
    assert!(!args.include_lib);
    assert!(!args.include_test);
    assert!(!args.include_script);
    assert!(!args.no_headers);
    assert!(!args.quiet);
    assert!(!args.show_help);
    assert!(!args.show_version);
}

#[test]
fn source_alone_keeps_the_default_destination() {
    let args = parse_args(&command(&["https://host/user/repo.git"])).unwrap();
    assert_eq!(args.source, "https://host/user/repo.git");
    assert_eq!(args.destination, ".");
    assert!(!args.is_local);
}

#[test]
fn second_plain_argument_is_the_destination() {
    let args = parse_args(&command(&["src", "out"])).unwrap();
    assert_eq!(args.source, "src");
    assert_eq!(args.destination, "out");
}

#[test]
fn switches_set_their_options() {
    let args = parse_args(&command(&[
        "-l",
        "--include-lib",
        "dir",
        "--include-test",
        "--include-script",
        "--no-headers",
        "-q",
    ]))
    .unwrap();
    assert_eq!(args.source, "dir");
    assert!(args.is_local);
    assert!(args.include_lib);
    assert!(args.include_test);
    assert!(args.include_script);
    assert!(args.no_headers);
    assert!(args.quiet);
    assert!(!args.show_help);
    assert!(!args.show_version);

    let long = parse_args(&command(&["--local", "--quiet", "dir"])).unwrap();
    assert!(long.is_local);
    assert!(long.quiet);
}

#[test]
fn output_takes_the_next_argument_whatever_it_is() {
    let args = parse_args(&command(&["dir", "-o", "name"])).unwrap();
    assert_eq!(args.output_name.as_deref(), Some("name"));
    let odd = parse_args(&command(&["--output", "-h", "dir"])).unwrap();
    assert_eq!(odd.output_name.as_deref(), Some("-h"));
    assert!(!odd.show_help);
    assert_eq!(odd.source, "dir");
}

#[test]
fn later_output_name_replaces_the_earlier() {
    let args = parse_args(&command(&["-o", "a", "dir", "-o", "b"])).unwrap();
    assert_eq!(args.output_name.as_deref(), Some("b"));
}

#[test]
fn help_and_version_need_no_source() {
    let help = parse_args(&command(&["-h"])).unwrap();
    assert!(help.show_help);
    assert_eq!(help.source, "");
    let help_long = parse_args(&command(&["--help", "a", "b", "c"])).unwrap();
    assert!(help_long.show_help);
    assert_eq!(help_long.source, "");
    let version = parse_args(&command(&["-v"])).unwrap();
    assert!(version.show_version);
    let version_long = parse_args(&command(&["--version"])).unwrap();
    assert!(version_long.show_version);
}

#[test]
fn output_without_a_value_is_refused() {
    assert_eq!(
        parse_args(&command(&["dir", "-o"])).unwrap_err(),
        "--output requires a value"
    );
    assert_eq!(
        parse_args(&command(&["--output"])).unwrap_err(),
        "--output requires a value"
    );
}

#[test]
fn unknown_option_is_refused_by_name() {
    assert_eq!(
        parse_args(&command(&["dir", "--frobnicate"])).unwrap_err(),
        "Unknown option: --frobnicate"
    );
    assert_eq!(
        parse_args(&command(&["-"])).unwrap_err(),
        "Unknown option: -"
    );
    assert_eq!(
        parse_args(&command(&["-x", "-o"])).unwrap_err(),
        "Unknown option: -x"
    );
}

#[test]
fn unknown_option_is_refused_even_with_help() {
    assert_eq!(
        parse_args(&command(&["-h", "--nope"])).unwrap_err(),
        "Unknown option: --nope"
    );
}

#[test]
fn missing_source_is_refused() {
    assert_eq!(
        parse_args(&command(&[])).unwrap_err(),
        "Missing required argument: <source>"
    );
    assert_eq!(
        parse_args(&command(&["-q", "-l"])).unwrap_err(),
        "Missing required argument: <source>"
    );
    assert_eq!(
        parse_args(&Vec::new()).unwrap_err(),
        "Missing required argument: <source>"
    );
}

#[test]
fn third_plain_argument_is_refused() {
    assert_eq!(
        parse_args(&command(&["a", "b", "c"])).unwrap_err(),
        "Too many positional arguments"
    );
}

#[test]
fn empty_argument_is_a_plain_argument() {
    let args = parse_args(&command(&[""])).unwrap();
    assert_eq!(args.source, "");
}

#[test]
fn program_name_is_not_read() {
    let line = vec![String::from("--help")];
    assert_eq!(
        parse_args(&line).unwrap_err(),
        "Missing required argument: <source>"
    );
}

const ALWAYS: [&str; 9] = [
    ".git",
    "node_modules",
    "out",
    "cache",
    "artifacts",
    "build",
    "coverage",
    ".deps",
    "dependencies",
];
const LIBS: [&str; 2] = ["lib", "Lib"];
const TESTS: [&str; 4] = ["test", "tests", "Test", "Tests"];
const SCRIPTS: [&str; 4] = ["script", "scripts", "Script", "Scripts"];

#[test]
fn default_run_leaves_out_every_listed_directory() {
    let excluded = build_excluded_dirs(&Args::default());
    for name in ALWAYS.iter().chain(&LIBS).chain(&TESTS).chain(&SCRIPTS) {
        assert!(excluded.contains(name), "{name}");
    }
    for name in ["src", "contracts", "libs", "LIB", "TEST", "", "git", "lib/"] {
        assert!(!excluded.contains(name), "{name}");
    }
}

#[test]
fn including_a_kind_takes_only_its_directories_back_in() {
    for (lib, test, script) in [
        (true, false, false),
        (false, true, false),
        (false, false, true),
        (true, true, true),
    ] {
        let args = Args {
            include_lib: lib,
            include_test: test,
            include_script: script,
            ..Args::default()
        };
        let excluded = build_excluded_dirs(&args);
        for name in ALWAYS {
            assert!(excluded.contains(name));
        }
        for name in LIBS {
            assert_eq!(excluded.contains(name), !lib);
        }
        for name in TESTS {
            assert_eq!(excluded.contains(name), !test);
        }
        for name in SCRIPTS {
            assert_eq!(excluded.contains(name), !script);
        }
    }
}

#[test]
fn set_holds_what_was_put_in() {
    let mut set = ExclusionSet::new();
    assert!(!set.contains("a"));
    set.insert("a");
    set.insert("b");
    set.insert("a");
    assert!(set.contains("a"));
    assert!(set.contains("b"));
    assert!(!set.contains("c"));
    assert!(!set.contains("ab"));
    assert!(!set.contains(""));
}
