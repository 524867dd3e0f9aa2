use solscrape::aggregator::{read_warnings, scrape_directory, SourceFile};
use solscrape::config::{parse_args, Args};
use solscrape::discovery::{DirEntry, EntryKind, Listing, Walk, WalkStep};
use solscrape::errors::ScrapeError;
use solscrape::exclusion::build_excluded_dirs;
use solscrape::naming::remote_output_name;
use solscrape::report::summary;

struct Disk {
    directories: Vec<(&'static str, Vec<(&'static str, EntryKind)>)>,
    files: Vec<(&'static str, Result<&'static str, &'static str>)>,
}

impl Disk {
    fn list(&self, directory: &str) -> Listing {
        for (path, entries) in &self.directories {
            if *path == directory {
                return Listing::Entries(
                    entries
                        .iter()
                        .map(|(name, kind)| DirEntry {
                            name: name.to_string(),
                            kind: *kind,
                        })
                        .collect(),
                );
            }
        }
        Listing::NotADirectory
    }

    fn read(&self, path: &str) -> SourceFile {
        let content = self
            .files
            .iter()
            .find(|(p, _)| *p == path)
            .map(|(_, text)| text.map(String::from).map_err(String::from))
            .unwrap_or_else(|| Err(String::from("No such file or directory (os error 2)")));
        SourceFile {
            relative_path: path.to_string(),
            content,
        }
    }
}

fn run(disk: &Disk, args: &Args) -> Result<Vec<String>, ScrapeError> {
    let mut walk = Walk::new(build_excluded_dirs(args));
    let paths = loop {
        match walk.next() {
            WalkStep::List(waiting) => {
                let listing = disk.list(waiting.path());
                walk = waiting.visit(&listing)?;
            }
            WalkStep::Done(files) => break files,
        }
    };
    let files: Vec<SourceFile> = paths.iter().map(|p| disk.read(p)).collect();
    let mut shown = read_warnings(&files, args.quiet);
    let name = remote_output_name(args.output_name.as_deref(), &args.source);
    let merged = scrape_directory(&files, &name, args)?;
    let document = merged.document.clone();
    let result = merged.into_result(format!("{}/{}_scraped.sol", args.destination, name));
    shown.extend(summary(&result, args.quiet));
    shown.push(document);
    Ok(shown)
}

fn arguments(line: &[&str]) -> Args {
    let mut all = vec![String::from("solscrape")];
    all.extend(line.iter().map(|a| a.to_string()));
    parse_args(&all).unwrap()
}

#[test]
fn root_with_one_file_of_code_and_one_blank_file() {
    let disk = Disk {
        directories: vec![("", vec![("B.sol", EntryKind::File), ("A.sol", EntryKind::File)])],
        files: vec![("A.sol", Ok("// drop\ncode1;")), ("B.sol", Ok("   \n\t\n"))],
    };
    let shown = run(&disk, &arguments(&["https://host/u/repo.git", "out", "--no-headers"])).unwrap();
    assert_eq!(shown[3], "   Files processed: 1");
    assert_eq!(shown[4], "   Total lines:     1");
    assert_eq!(shown[5], "   Output:          out/repo_scraped.sol");
    assert_eq!(&shown[7..10], ["", "Files included:", "  • A.sol"]);
    assert_eq!(shown.len(), 11);
    assert_eq!(shown[10], "code1;");
    assert!(!shown.iter().any(|line| line.contains("B.sol")));
}

#[test]
fn root_whose_only_file_cleans_to_nothing() {
    let disk = Disk {
        directories: vec![("", vec![("A.sol", EntryKind::File)])],
        files: vec![("A.sol", Ok("/* nothing\n but a comment */\n// and another\n"))],
    };
    let error = run(&disk, &arguments(&["repo"])).unwrap_err();
    assert!(matches!(error, ScrapeError::AllFilesEmpty));
}

#[test]
fn root_without_source_files() {
    let disk = Disk {
        directories: vec![
            ("", vec![("README.md", EntryKind::File), ("lib", EntryKind::Directory)]),
            ("lib", vec![("Dep.sol", EntryKind::File)]),
        ],
        files: vec![("lib/Dep.sol", Ok("x;"))],
    };
    let error = run(&disk, &arguments(&["repo"])).unwrap_err();
    assert!(matches!(error, ScrapeError::NoFilesFound));
    let with_lib = run(&disk, &arguments(&["repo", "--include-lib", "-q"])).unwrap();
    assert_eq!(with_lib[0], "./repo_scraped.sol");
    assert!(with_lib[1].ends_with("\nx;"));
}

#[test]
fn unreadable_file_is_warned_about_and_left_out() {
    let disk = Disk {
        directories: vec![
            ("", vec![("src", EntryKind::Directory)]),
            (
                "src",
                vec![
                    ("C.sol", EntryKind::File),
                    ("A.sol", EntryKind::File),
                    ("B.sol", EntryKind::File),
                ],
            ),
        ],
        files: vec![
            ("src/A.sol", Ok("a; // x")),
            ("src/B.sol", Err("stream did not contain valid UTF-8")),
            ("src/C.sol", Ok("\n\nc;\n")),
        ],
    };
    let shown = run(&disk, &arguments(&["repo", "-o", "mine", "--no-headers"])).unwrap();
    assert_eq!(
        shown[0],
        "Warning: Could not read src/B.sol: stream did not contain valid UTF-8"
    );
    assert_eq!(shown[4], "   Files processed: 2");
    assert_eq!(shown[6], "   Output:          ./mine_scraped.sol");
    assert_eq!(&shown[10..12], ["  • src/A.sol", "  • src/C.sol"]);
    assert_eq!(shown[12], "a;\nc;");

    let quiet = run(&disk, &arguments(&["repo", "-q", "--no-headers"])).unwrap();
    assert_eq!(quiet, vec!["./repo_scraped.sol", "a;\nc;"]);
}
