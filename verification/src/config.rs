//! The options of a run and how they are read from the command line.

use crate::text::same_text;
use vstd::prelude::*;
use vstd::string::StringExecFns;

verus! {

/// The options of a run.
#[derive(Debug)]
pub struct Args {
    /// Address of the repository, or path of the local directory, to read.
    pub source: String,
    /// Directory that the output file is written to.
    pub destination: String,
    /// Name of the output file, without its ending, if one was given.
    pub output_name: Option<String>,
    /// `source` is a local directory, not the address of a repository.
    pub is_local: bool,
    /// Read the library directory too.
    pub include_lib: bool,
    /// Read the test directories too.
    pub include_test: bool,
    /// Read the script directories too.
    pub include_script: bool,
    /// Write no header above the content of each file.
    pub no_headers: bool,
    /// Report nothing but the path of the output file.
    pub quiet: bool,
    /// Show the help text and stop.
    pub show_help: bool,
    /// Show the version and stop.
    pub show_version: bool,
}

/// The options of a run, as values.
pub struct ArgsView {
    pub source: Seq<char>,
    pub destination: Seq<char>,
    pub output_name: Option<Seq<char>>,
    pub is_local: bool,
    pub include_lib: bool,
    pub include_test: bool,
    pub include_script: bool,
    pub no_headers: bool,
    pub quiet: bool,
    pub show_help: bool,
    pub show_version: bool,
}

impl View for Args {
    type V = ArgsView;

    open spec fn view(&self) -> ArgsView {
        ArgsView {
            source: self.source@,
            destination: self.destination@,
            output_name: match self.output_name {
                Some(name) => Some(name@),
                None => None,
            },
            is_local: self.is_local,
            include_lib: self.include_lib,
            include_test: self.include_test,
            include_script: self.include_script,
            no_headers: self.no_headers,
            quiet: self.quiet,
            show_help: self.show_help,
            show_version: self.show_version,
        }
    }
}

/// The options of a run for which nothing was asked: no source, the current
/// directory as destination, every switch off.
pub open spec fn default_args() -> ArgsView {
    ArgsView {
        source: Seq::empty(),
        destination: "."@,
        output_name: None,
        is_local: false,
        include_lib: false,
        include_test: false,
        include_script: false,
        no_headers: false,
        quiet: false,
        show_help: false,
        show_version: false,
    }
}

impl Default for Args {
    fn default() -> (args: Self)
        ensures
            args@ == default_args(),
    {
        Self {
            source: String::new(),
            destination: ".".to_owned(),
            output_name: None,
            is_local: false,
            include_lib: false,
            include_test: false,
            include_script: false,
            no_headers: false,
            quiet: false,
            show_help: false,
            show_version: false,
        }
    }
}

/// What the command line gives once all its arguments are read: the options
/// `parsed` read so far, completed by the arguments `positional` that are no
/// options. Help and version need no source. Else the first such argument
/// is the source and the second, if there is one, the destination.
pub open spec fn parsed_with(parsed: ArgsView, positional: Seq<Seq<char>>) -> Result<
    ArgsView,
    Seq<char>,
> {
    if parsed.show_help || parsed.show_version {
        Ok(parsed)
    } else if positional.len() == 0 {
        Err("Missing required argument: <source>"@)
    } else if positional.len() == 1 {
        Ok(ArgsView { source: positional[0], ..parsed })
    } else if positional.len() == 2 {
        Ok(ArgsView { source: positional[0], destination: positional[1], ..parsed })
    } else {
        Err("Too many positional arguments"@)
    }
}

/// What the command line `args` gives when it is read from its argument `i`
/// on, after the options `parsed` and the arguments `positional` that are
/// no options.
///
/// A switch sets its option. `-o` or `--output` takes the argument after it
/// as the name of the output and fails if there is none. Any other argument
/// that begins with `-` is unknown and fails. Every other argument is no
/// option. The first failure ends the reading.
pub open spec fn parsed_from(
    args: Seq<Seq<char>>,
    i: int,
    parsed: ArgsView,
    positional: Seq<Seq<char>>,
) -> Result<ArgsView, Seq<char>>
    decreases args.len() - i,
{
    if i < 0 || i >= args.len() {
        parsed_with(parsed, positional)
    } else {
        let arg = args[i];
        if arg == "-h"@ || arg == "--help"@ {
            parsed_from(args, i + 1, ArgsView { show_help: true, ..parsed }, positional)
        } else if arg == "-v"@ || arg == "--version"@ {
            parsed_from(args, i + 1, ArgsView { show_version: true, ..parsed }, positional)
        } else if arg == "-l"@ || arg == "--local"@ {
            parsed_from(args, i + 1, ArgsView { is_local: true, ..parsed }, positional)
        } else if arg == "-q"@ || arg == "--quiet"@ {
            parsed_from(args, i + 1, ArgsView { quiet: true, ..parsed }, positional)
        } else if arg == "--include-lib"@ {
            parsed_from(args, i + 1, ArgsView { include_lib: true, ..parsed }, positional)
        } else if arg == "--include-test"@ {
            parsed_from(args, i + 1, ArgsView { include_test: true, ..parsed }, positional)
        } else if arg == "--include-script"@ {
            parsed_from(args, i + 1, ArgsView { include_script: true, ..parsed }, positional)
        } else if arg == "--no-headers"@ {
            parsed_from(args, i + 1, ArgsView { no_headers: true, ..parsed }, positional)
        } else if arg == "-o"@ || arg == "--output"@ {
            if i + 1 >= args.len() {
                Err("--output requires a value"@)
            } else {
                parsed_from(
                    args,
                    i + 2,
                    ArgsView { output_name: Some(args[i + 1]), ..parsed },
                    positional,
                )
            }
        } else if arg.len() > 0 && arg[0] == '-' {
            Err("Unknown option: "@ + arg)
        } else {
            parsed_from(args, i + 1, parsed, positional.push(arg))
        }
    }
}

/// What the command line `args` gives. Its first argument is the name of
/// the program and is not read.
pub open spec fn parsed_args(args: Seq<Seq<char>>) -> Result<ArgsView, Seq<char>> {
    parsed_from(args, 1, default_args(), Seq::empty())
}

/// Reads the options of a run from the command line `args`, whose first
/// argument is the name of the program. Fails with the message to show if
/// the command line cannot be read.
pub fn parse_args(args: &Vec<String>) -> (result: Result<Args, String>)
    ensures
        match result {
            Ok(parsed) => parsed_args(args.deep_view()) == Ok::<_, Seq<char>>(parsed@),
            Err(message) => parsed_args(args.deep_view()) == Err::<ArgsView, _>(message@),
        },
{
    let mut parsed = Args::default();
    let mut positional: Vec<String> = Vec::new();
    let mut i: usize = 1;
    let ghost all = args.deep_view();
    proof {
        assert(positional.deep_view() == Seq::<Seq<char>>::empty());
    }

    while i < args.len()
        invariant
            1 <= i,
            all == args.deep_view(),
            parsed_from(all, i as int, parsed@, positional.deep_view()) == parsed_args(all),
        decreases args.len() - i,
    {
        let arg = args[i].as_str();
        let ghost read = positional.deep_view();
        assert(all[i as int] == arg@);
        if same_text(arg, "-h") || same_text(arg, "--help") {
            parsed.show_help = true;
        } else if same_text(arg, "-v") || same_text(arg, "--version") {
            parsed.show_version = true;
        } else if same_text(arg, "-l") || same_text(arg, "--local") {
            parsed.is_local = true;
        } else if same_text(arg, "-q") || same_text(arg, "--quiet") {
            parsed.quiet = true;
        } else if same_text(arg, "--include-lib") {
            parsed.include_lib = true;
        } else if same_text(arg, "--include-test") {
            parsed.include_test = true;
        } else if same_text(arg, "--include-script") {
            parsed.include_script = true;
        } else if same_text(arg, "--no-headers") {
            parsed.no_headers = true;
        } else if same_text(arg, "-o") || same_text(arg, "--output") {
            if i + 1 >= args.len() {
                return Err("--output requires a value".to_owned());
            }
            i += 1;
            assert(all[i as int] == args[i as int]@);
            parsed.output_name = Some(args[i].clone());
        } else if !arg.is_empty() && arg.get_char(0) == '-' {
            return Err("Unknown option: ".to_owned().concat(arg));
        } else {
            positional.push(args[i].clone());
            assert(positional.deep_view() == read.push(arg@));
        }
        i += 1;
    }

    if parsed.show_help || parsed.show_version {
        return Ok(parsed);
    }
    if positional.len() == 0 {
        return Err("Missing required argument: <source>".to_owned());
    } else if positional.len() == 1 {
        parsed.source = positional[0].clone();
    } else if positional.len() == 2 {
        parsed.source = positional[0].clone();
        parsed.destination = positional[1].clone();
    } else {
        return Err("Too many positional arguments".to_owned());
    }
    Ok(parsed)
}

} // verus!
