//! The names of the directories that a walk of the source tree leaves out.

use crate::config::{Args, ArgsView};
use crate::text::same_text;
use vstd::prelude::*;

verus! {

/// A set of directory names. A directory whose own name, not its path, is
/// in the set is not read, nor is anything below it.
#[derive(Debug)]
pub struct ExclusionSet {
    names: Vec<String>,
}

impl View for ExclusionSet {
    type V = Set<Seq<char>>;

    closed spec fn view(&self) -> Set<Seq<char>> {
        self.names.deep_view().to_set()
    }
}

impl ExclusionSet {
    /// The set is held as it should be: no name is stored twice.
    pub closed spec fn well_formed(&self) -> bool {
        self.names.deep_view().no_duplicates()
    }

    /// The set of no names.
    pub fn new() -> (set: ExclusionSet)
        ensures
            set.well_formed(),
            set@ == Set::<Seq<char>>::empty(),
    {
        let set = ExclusionSet { names: Vec::new() };
        assert(set.names.deep_view() == Seq::<Seq<char>>::empty());
        assert(set@ == Set::<Seq<char>>::empty());
        set
    }

    /// Tells whether `name` is in the set.
    pub fn contains(&self, name: &str) -> (found: bool)
        ensures
            found == self@.contains(name@),
    {
        let mut i: usize = 0;
        while i < self.names.len()
            invariant
                i <= self.names.len(),
                forall|k: int| 0 <= k < i ==> self.names.deep_view()[k] != name@,
            decreases self.names.len() - i,
        {
            if same_text(self.names[i].as_str(), name) {
                assert(self.names.deep_view()[i as int] == name@);
                return true;
            }
            i += 1;
        }
        false
    }

    /// Puts `name` into the set.
    pub fn insert(&mut self, name: &str)
        ensures
            final(self)@ == old(self)@.insert(name@),
            old(self).well_formed() ==> final(self).well_formed(),
    {
        if !self.contains(name) {
            let ghost before = self.names.deep_view();
            self.names.push(name.to_owned());
            proof {
                assert(self.names.deep_view() == before.push(name@));
                before.lemma_push_to_set_commute(name@);
            }
        } else {
            assert(self@.insert(name@) == self@);
        }
    }
}

/// The directories that are left out of every run: version control, fetched
/// dependencies, and what builds and coverage runs produce.
pub open spec fn always_excluded() -> Set<Seq<char>> {
    set![
        ".git"@,
        "node_modules"@,
        "out"@,
        "cache"@,
        "artifacts"@,
        "build"@,
        "coverage"@,
        ".deps"@,
        "dependencies"@,
    ]
}

/// The library directory, left out unless the run includes it. The name is
/// there in lower case and capitalised; no other spelling is.
pub open spec fn library_dirs() -> Set<Seq<char>> {
    set!["lib"@, "Lib"@]
}

/// The test directories, left out unless the run includes them. Each name
/// is there in lower case and capitalised; no other spelling is.
pub open spec fn test_dirs() -> Set<Seq<char>> {
    set!["test"@, "tests"@, "Test"@, "Tests"@]
}

/// The script directories, left out unless the run includes them. Each name
/// is there in lower case and capitalised; no other spelling is.
pub open spec fn script_dirs() -> Set<Seq<char>> {
    set!["script"@, "scripts"@, "Script"@, "Scripts"@]
}

/// The directories that a run with the options `args` leaves out.
pub open spec fn excluded_dirs(args: ArgsView) -> Set<Seq<char>> {
    always_excluded() + (if args.include_lib {
        Set::empty()
    } else {
        library_dirs()
    }) + (if args.include_test {
        Set::empty()
    } else {
        test_dirs()
    }) + (if args.include_script {
        Set::empty()
    } else {
        script_dirs()
    })
}

/// Builds the set of the directories that a run with the options `args`
/// leaves out.
pub fn build_excluded_dirs(args: &Args) -> (excluded: ExclusionSet)
    ensures
        excluded.well_formed(),
        excluded@ == excluded_dirs(args@),
{
    let mut excluded = ExclusionSet::new();

    excluded.insert(".git");
    excluded.insert("node_modules");
    excluded.insert("out");
    excluded.insert("cache");
    excluded.insert("artifacts");
    excluded.insert("build");
    excluded.insert("coverage");
    excluded.insert(".deps");
    excluded.insert("dependencies");
    assert(excluded@ == always_excluded());

    if !args.include_lib {
        excluded.insert("lib");
        excluded.insert("Lib");
    }
    let ghost with_lib = excluded@;
    assert(with_lib == always_excluded() + (if args.include_lib {
        Set::empty()
    } else {
        library_dirs()
    }));
    if !args.include_test {
        excluded.insert("test");
        excluded.insert("tests");
        excluded.insert("Test");
        excluded.insert("Tests");
    }
    let ghost with_test = excluded@;
    assert(with_test == with_lib + (if args.include_test {
        Set::empty()
    } else {
        test_dirs()
    }));
    if !args.include_script {
        excluded.insert("script");
        excluded.insert("scripts");
        excluded.insert("Script");
        excluded.insert("Scripts");
    }
    assert(excluded@ == with_test + (if args.include_script {
        Set::empty()
    } else {
        script_dirs()
    }));
    excluded
}

} // verus!
