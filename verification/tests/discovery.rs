use solscrape::config::Args;
use solscrape::discovery::{
    is_entry_name, is_solidity_file, join_path, DirEntry, EntryKind, Listing, Waiting, Walk,
    WalkStep,
};
use solscrape::errors::ScrapeError;
use solscrape::exclusion::{build_excluded_dirs, ExclusionSet};
use solscrape::order::{comes_before, sort_paths};

fn dir(name: &str) -> DirEntry {
    DirEntry {
        name: name.to_string(),
        kind: EntryKind::Directory,
    }
}

fn file(name: &str) -> DirEntry {
    DirEntry {
        name: name.to_string(),
        kind: EntryKind::File,
    }
}

fn other(name: &str) -> DirEntry {
    DirEntry {
        name: name.to_string(),
        kind: EntryKind::Other,
    }
}

type Tree = Vec<(&'static str, Vec<DirEntry>)>;

fn listing_of(tree: &Tree, directory: &str) -> Listing {
    for (path, entries) in tree {
        if *path == directory {
            let copies = entries
                .iter()
                .map(|e| DirEntry {
                    name: e.name.clone(),
                    kind: e.kind,
                })
                .collect();
            return Listing::Entries(copies);
        }
    }
    Listing::NotADirectory
}

fn discover(tree: &Tree, excluded: ExclusionSet) -> Vec<String> {
    let mut listed = Vec::new();
    let mut walk = Walk::new(excluded);
    loop {
        match walk.next() {
            WalkStep::List(waiting) => {
                listed.push(waiting.path().to_string());
                let listing = listing_of(tree, waiting.path());
                walk = waiting.visit(&listing).unwrap();
            }
            WalkStep::Done(files) => {
                assert_eq!(listed[0], "");
                return files;
            }
        }
    }
}

fn sample_tree() -> Tree {
    vec![
        (
            "",
            vec![
                dir("src"),
                dir("node_modules"),
                dir("test"),
                file("Zeta.sol"),
                file("README.md"),
                other("link.sol"),
            ],
        ),
        (
            "src",
            vec![file("Token.sol"), dir("deep"), dir("dir.sol"), file("Alpha.sol")],
        ),
        ("src/deep", vec![file("Token.sol"), dir("lib")]),
        ("src/dir.sol", vec![file("In.sol")]),
        ("src/deep/lib", vec![file("Dep.sol")]),
        ("node_modules", vec![file("Token.sol"), dir("src")]),
        ("node_modules/src", vec![file("Inner.sol")]),
        ("test", vec![file("Token.sol")]),
    ]
}

fn defaults() -> ExclusionSet {
    build_excluded_dirs(&Args::default())
}

#[test]
fn source_files_are_found_in_ascending_order() {
    assert_eq!(
        discover(&sample_tree(), defaults()),
        vec![
            "Zeta.sol",
            "src/Alpha.sol",
            "src/Token.sol",
            "src/deep/Token.sol",
            "src/dir.sol/In.sol",
        ]
    );
}

#[test]
fn files_of_a_directory_come_before_what_continues_its_name() {
    let tree: Tree = vec![
        ("", vec![file("Token.sol"), dir("Token"), file("Token-2.sol")]),
        ("Token", vec![file("Helper.sol"), file("A.sol")]),
    ];
    assert_eq!(
        discover(&tree, defaults()),
        vec!["Token/A.sol", "Token/Helper.sol", "Token-2.sol", "Token.sol"]
    );
}

#[test]
fn order_of_the_listings_does_not_matter() {
    let forward = discover(&sample_tree(), defaults());
    let mut reversed = sample_tree();
    reversed.reverse();
    for (_, entries) in reversed.iter_mut() {
        entries.reverse();
    }
    assert_eq!(discover(&reversed, defaults()), forward);
    assert_eq!(discover(&sample_tree(), defaults()), forward);
}

#[test]
fn file_below_an_excluded_directory_is_not_found() {
    let found = discover(&sample_tree(), defaults());
    assert!(!found.contains(&"node_modules/Token.sol".to_string()));
    assert!(!found.contains(&"node_modules/src/Inner.sol".to_string()));
    assert!(!found.contains(&"test/Token.sol".to_string()));
    assert!(!found.contains(&"src/deep/lib/Dep.sol".to_string()));
    assert!(found.contains(&"src/Token.sol".to_string()));
    assert!(found.contains(&"src/deep/Token.sol".to_string()));
}

#[test]
fn included_kinds_are_read() {
    let args = Args {
        include_lib: true,
        include_test: true,
        ..Args::default()
    };
    let found = discover(&sample_tree(), build_excluded_dirs(&args));
    assert!(found.contains(&"test/Token.sol".to_string()));
    assert!(found.contains(&"src/deep/lib/Dep.sol".to_string()));
    assert!(!found.contains(&"node_modules/Token.sol".to_string()));
}

#[test]
fn root_is_read_whatever_it_is_called() {
    let tree: Tree = vec![("", vec![file("A.sol")])];
    assert_eq!(discover(&tree, defaults()), vec!["A.sol"]);
}

#[test]
fn root_that_is_no_directory_gives_nothing() {
    assert!(discover(&Vec::new(), ExclusionSet::new()).is_empty());
}

fn waiting(walk: Walk) -> Waiting {
    match walk.next() {
        WalkStep::List(waiting) => waiting,
        WalkStep::Done(_) => panic!("the walk ended early"),
    }
}

#[test]
fn failed_listing_ends_the_walk() {
    let root = waiting(Walk::new(ExclusionSet::new()));
    assert_eq!(root.path(), "");
    let result = root.visit(&Listing::Failed(
        "Permission denied (os error 13)".to_string(),
    ));
    match result {
        Err(e) => {
            assert!(matches!(e, ScrapeError::ScanFailed(_)));
            assert_eq!(
                e.message(),
                "Failed to scan directory: Permission denied (os error 13)"
            );
        }
        Ok(_) => panic!("a failed listing was accepted"),
    }
}

#[test]
fn walk_lists_the_directory_found_last_first() {
    let root = waiting(Walk::new(ExclusionSet::new()));
    let walk = root
        .visit(&Listing::Entries(vec![dir("a"), dir("b")]))
        .unwrap();
    let first = waiting(walk);
    assert_eq!(first.path(), "b");
    let walk = first.visit(&Listing::Entries(vec![dir("c")])).unwrap();
    let second = waiting(walk);
    assert_eq!(second.path(), "b/c");
    let walk = second.visit(&Listing::Entries(Vec::new())).unwrap();
    let third = waiting(walk);
    assert_eq!(third.path(), "a");
    let walk = third.visit(&Listing::NotADirectory).unwrap();
    assert!(matches!(walk.next(), WalkStep::Done(_)));
}

#[test]
fn entries_with_impossible_names_are_passed_over() {
    let tree: Tree = vec![
        (
            "",
            vec![
                file(""),
                file("a/B.sol"),
                dir(""),
                dir("x/y"),
                dir("node_modules/src"),
                file("C.sol"),
            ],
        ),
        ("x/y", vec![file("D.sol")]),
        ("node_modules/src", vec![file("E.sol")]),
    ];
    assert_eq!(discover(&tree, defaults()), vec!["C.sol"]);
    for name in ["a", "a.sol", " ", ".", "..", "a\\b"] {
        assert!(is_entry_name(name), "{name}");
    }
    for name in ["", "/", "a/b", "/a", "a/"] {
        assert!(!is_entry_name(name), "{name}");
    }
}

#[test]
fn paths_are_names_joined_by_slashes() {
    assert_eq!(join_path("", "a"), "a");
    assert_eq!(join_path("a", "b"), "a/b");
    assert_eq!(join_path("a/b", "c.sol"), "a/b/c.sol");
    assert_eq!(join_path("a", ""), "a/");
}

#[test]
fn source_file_names_end_in_the_extension() {
    for name in ["A.sol", "a.b.sol", "..sol", "x.sol.sol", " .sol", "é.sol"] {
        assert!(is_solidity_file(name), "{name}");
    }
    for name in [
        ".sol", "sol", "A.SOL", "A.sol ", "A.sol.bak", "A.so", "Asol", "", "A.solx", "A.",
    ] {
        assert!(!is_solidity_file(name), "{name}");
    }
}

#[test]
fn source_file_names_agree_with_the_path_extension() {
    for name in [
        "A.sol", ".sol", "..sol", "a.b.sol", "sol", "A.sol.bak", "x.", ".x.sol", "...sol",
    ] {
        let expected = std::path::Path::new(name)
            .extension()
            .map_or(false, |ext| ext == "sol");
        assert_eq!(is_solidity_file(name), expected, "{name}");
    }
}

#[test]
fn paths_are_ordered_name_by_name() {
    assert!(comes_before("", ""));
    assert!(comes_before("", "a"));
    assert!(!comes_before("a", ""));
    assert!(comes_before("a", "a"));
    assert!(comes_before("a", "ab"));
    assert!(!comes_before("ab", "a"));
    assert!(comes_before("A", "a"));
    assert!(comes_before("a/Z", "a/a"));
    assert!(comes_before("z", "é"));
    assert!(comes_before("a", "a/b"));
    assert!(!comes_before("a/b", "a"));
}

#[test]
fn directory_comes_before_what_continues_its_name() {
    assert!(comes_before("a/b", "a.b"));
    assert!(!comes_before("a.b", "a/b"));
    assert!(comes_before("Token/Helper.sol", "Token.sol"));
    assert!(!comes_before("Token.sol", "Token/Helper.sol"));
    assert!(comes_before("a/z", "a b"));
    assert!(comes_before("a/z", "a-b/c"));
    assert!(comes_before("a b", "a-b/c"));
    assert_eq!(
        sort_paths(
            ["Token.sol", "Token/Helper.sol", "Token-2.sol", "Token/A.sol", "Token"]
                .iter()
                .map(|p| p.to_string())
                .collect()
        ),
        vec!["Token", "Token/A.sol", "Token/Helper.sol", "Token-2.sol", "Token.sol"]
    );
}

#[test]
fn path_order_agrees_with_the_order_of_standard_paths() {
    let paths = [
        "", "a", "ab", "a/b", "a.b", "a b", "a-b/c", "b", "A", "é", "e", "越", "\u{10FFFF}", "~",
        "a/b/c", "a/b.c", "a.b/c", "a/é", "Token.sol", "Token/Helper.sol",
    ];
    for x in paths {
        for y in paths {
            let expected = std::path::Path::new(x) <= std::path::Path::new(y);
            assert_eq!(comes_before(x, y), expected, "{x:?} {y:?}");
        }
    }
}

#[test]
fn sorting_agrees_with_the_standard_sort_on_many_lists() {
    let mut seed: u64 = 0x9E37_79B9_7F4A_7C15;
    let mut next = move || {
        seed ^= seed << 13;
        seed ^= seed >> 7;
        seed ^= seed << 17;
        seed
    };
    let names = ["a", "b", "ab", "B", "a.sol", "a-b", "a b", "z", "é"];
    for round in 0..200 {
        let len = (next() % 40) as usize;
        let paths: Vec<String> = (0..len)
            .map(|_| {
                let depth = 1 + next() % 3;
                (0..depth)
                    .map(|_| names[(next() % 9) as usize])
                    .collect::<Vec<&str>>()
                    .join("/")
            })
            .collect();
        let mut expected = paths.clone();
        expected.sort_by_key(|path| std::path::PathBuf::from(path));
        assert_eq!(sort_paths(paths), expected, "round {round}");
    }
}

#[test]
fn sorting_keeps_every_path_and_orders_them() {
    let paths = vec!["b/1", "a/2", "b/1", "a", "", "a/10", "B", "a.x"];
    let sorted = sort_paths(paths.iter().map(|p| p.to_string()).collect());
    assert_eq!(sorted, vec!["", "B", "a", "a/10", "a/2", "a.x", "b/1", "b/1"]);
    assert_eq!(sort_paths(Vec::new()), Vec::<String>::new());
}
