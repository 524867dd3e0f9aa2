//! Finding the source files of a tree. The walk itself reads no directory:
//! it says which directory to list next, takes the listing, and decides
//! which entries to descend into and which to keep. It names every
//! directory and file by its path below the root of the tree, with `/`
//! between the names; the root itself has the empty path.

use crate::errors::ScrapeError;
use crate::exclusion::ExclusionSet;
use crate::naming::ends_with;
use crate::order::{ascending, sort_paths};
use crate::text::{chars_of, holds_no, lemma_split_append, lemma_split_whole, split};
use vstd::prelude::*;
use vstd::string::StringExecFns;

verus! {

/// What an entry of a directory is.
#[derive(Debug, Clone, Copy, PartialEq, Eq, Structural)]
pub enum EntryKind {
    Directory,
    File,
    /// Neither a directory nor a regular file.
    Other,
}

/// One entry of a directory: its name and what it is.
#[derive(Debug)]
pub struct DirEntry {
    pub name: String,
    pub kind: EntryKind,
}

/// What came of listing a directory.
#[derive(Debug)]
pub enum Listing {
    /// The path does not lead to a directory.
    NotADirectory,
    /// The directory could not be listed, for the cause given.
    Failed(String),
    /// The entries of the directory.
    Entries(Vec<DirEntry>),
}

/// The ending of the name of a source file.
pub open spec fn source_extension() -> Seq<char> {
    seq!['.', 's', 'o', 'l']
}

/// `name` is the name of a source file: it ends in `.sol`, and something
/// stands before that.
pub open spec fn is_source_name(name: Seq<char>) -> bool {
    name.len() > 4 && ends_with(name, source_extension())
}

/// Tells whether `name` is the name of a source file.
pub fn is_solidity_file(name: &str) -> (is_source: bool)
    ensures
        is_source == is_source_name(name@),
{
    let chars = chars_of(name);
    let n = chars.len();
    if n <= 4 {
        return false;
    }
    proof {
        let tail = chars@.skip(n - 4);
        if tail == source_extension() {
            assert(tail[0] == '.' && tail[1] == 's' && tail[2] == 'o' && tail[3] == 'l');
        }
        if chars@[n - 4] == '.' && chars@[n - 3] == 's' && chars@[n - 2] == 'o' && chars@[n - 1]
            == 'l' {
            assert(tail == source_extension());
        }
    }
    chars[n - 4] == '.' && chars[n - 3] == 's' && chars[n - 2] == 'o' && chars[n - 1] == 'l'
}

/// `name` can be the name of an entry of a directory: it is not empty and
/// holds no `/`.
pub open spec fn is_plain_name(name: Seq<char>) -> bool {
    name.len() > 0 && holds_no(name, '/')
}

/// Tells whether `name` can be the name of an entry of a directory.
pub fn is_entry_name(name: &str) -> (plain: bool)
    ensures
        plain == is_plain_name(name@),
{
    let chars = chars_of(name);
    if chars.len() == 0 {
        return false;
    }
    let mut i: usize = 0;
    while i < chars.len()
        invariant
            i <= chars.len(),
            chars@ == name@,
            forall|k: int| 0 <= k < i ==> chars@[k] != '/',
        decreases chars.len() - i,
    {
        if chars[i] == '/' {
            assert(name@[i as int] == '/');
            return false;
        }
        i += 1;
    }
    true
}

/// The path of the entry called `name` of the directory at `dir`.
pub open spec fn child_path(dir: Seq<char>, name: Seq<char>) -> Seq<char> {
    if dir.len() == 0 {
        name
    } else {
        dir + seq!['/'] + name
    }
}

/// Gives the path of the entry called `name` of the directory at `dir`.
pub fn join_path(dir: &str, name: &str) -> (path: String)
    ensures
        path@ == child_path(dir@, name@),
{
    if dir.is_empty() {
        name.to_owned()
    } else {
        let mut path = dir.to_owned();
        path.push('/');
        path.append(name);
        path
    }
}

/// The names that `path` is made of: the pieces between its slashes.
pub open spec fn segments(path: Seq<char>) -> Seq<Seq<char>> {
    split(path, '/')
}

/// Each of `names` can be the name of a directory that the walk reads: it
/// can be a name, and it is not in `excluded`.
pub open spec fn all_allowed(names: Seq<Seq<char>>, excluded: Set<Seq<char>>) -> bool {
    forall|k: int|
        0 <= k < names.len() ==> is_plain_name(#[trigger] names[k]) && !excluded.contains(names[k])
}

/// `path` is that of the root or of a directory that the walk reads: none
/// of the names that it is made of is in `excluded`.
pub open spec fn avoids(path: Seq<char>, excluded: Set<Seq<char>>) -> bool {
    path.len() == 0 || all_allowed(segments(path), excluded)
}

/// `path` is that of a source file in a directory that the walk reads: its
/// last name is that of a source file, and none of the names before it is
/// in `excluded`.
pub open spec fn is_source_path(path: Seq<char>, excluded: Set<Seq<char>>) -> bool {
    &&& all_allowed(segments(path).drop_last(), excluded)
    &&& is_plain_name(segments(path).last())
    &&& is_source_name(segments(path).last())
}

/// The path of an entry is made of the names of the path of its directory
/// and of its own name.
pub proof fn lemma_segments_of_child(dir: Seq<char>, name: Seq<char>)
    requires
        holds_no(name, '/'),
    ensures
        segments(child_path(dir, name)) == if dir.len() == 0 {
            seq![name]
        } else {
            segments(dir).push(name)
        },
{
    if dir.len() == 0 {
        lemma_split_whole(name, '/');
    } else {
        lemma_split_append(dir, name, '/');
    }
}

/// The root leads through no directory at all.
pub proof fn lemma_root_avoids(excluded: Set<Seq<char>>)
    ensures
        avoids(Seq::empty(), excluded),
{
}

/// In a directory that the walk reads, a directory whose name is not
/// excluded is one that the walk reads.
pub proof fn lemma_child_avoids(dir: Seq<char>, name: Seq<char>, excluded: Set<Seq<char>>)
    requires
        avoids(dir, excluded),
        is_plain_name(name),
        !excluded.contains(name),
    ensures
        avoids(child_path(dir, name), excluded),
{
    lemma_segments_of_child(dir, name);
}

/// In a directory that the walk reads, a file with the name of a source
/// file is a source file in a directory that the walk reads.
pub proof fn lemma_child_is_source(dir: Seq<char>, name: Seq<char>, excluded: Set<Seq<char>>)
    requires
        avoids(dir, excluded),
        is_plain_name(name),
        is_source_name(name),
    ensures
        is_source_path(child_path(dir, name), excluded),
{
    lemma_segments_of_child(dir, name);
    if dir.len() == 0 {
        assert(seq![name].drop_last() == Seq::<Seq<char>>::empty());
    } else {
        assert(segments(dir).push(name).drop_last() == segments(dir));
    }
}

/// The path of `entry` in the directory at `dir` if the walk descends into
/// it: if it is a directory whose name is not in `excluded`. An entry whose
/// name cannot be a name is passed over.
pub open spec fn descended(dir: Seq<char>, entry: DirEntry, excluded: Set<Seq<char>>) -> Option<
    Seq<char>,
> {
    if entry.kind == EntryKind::Directory && is_plain_name(entry.name@) && !excluded.contains(
        entry.name@,
    ) {
        Some(child_path(dir, entry.name@))
    } else {
        None
    }
}

/// The path of `entry` in the directory at `dir` if the walk keeps it: if it
/// is a regular file with the name of a source file. An entry whose name
/// cannot be a name is passed over.
pub open spec fn collected(dir: Seq<char>, entry: DirEntry) -> Option<Seq<char>> {
    if entry.kind == EntryKind::File && is_plain_name(entry.name@) && is_source_name(
        entry.name@,
    ) {
        Some(child_path(dir, entry.name@))
    } else {
        None
    }
}

/// The directories of the listing of `dir` that the walk descends into, in
/// the order of the listing.
pub open spec fn directories_to_visit(
    dir: Seq<char>,
    entries: Seq<DirEntry>,
    excluded: Set<Seq<char>>,
) -> Seq<Seq<char>> {
    entries.filter_map(|entry: DirEntry| descended(dir, entry, excluded))
}

/// The source files of the listing of `dir`, in the order of the listing.
pub open spec fn source_files(dir: Seq<char>, entries: Seq<DirEntry>) -> Seq<Seq<char>> {
    entries.filter_map(|entry: DirEntry| collected(dir, entry))
}

/// Every path of `paths` leads through no excluded directory.
pub open spec fn all_avoid(paths: Seq<Seq<char>>, excluded: Set<Seq<char>>) -> bool {
    forall|i: int| 0 <= i < paths.len() ==> avoids(#[trigger] paths[i], excluded)
}

/// Every path of `paths` is that of a source file in a directory that the
/// walk reads.
pub open spec fn all_source_paths(paths: Seq<Seq<char>>, excluded: Set<Seq<char>>) -> bool {
    forall|i: int| 0 <= i < paths.len() ==> is_source_path(#[trigger] paths[i], excluded)
}

/// A walk of a source tree, between two listings. It neither has read nor
/// will read anything below an excluded directory, and all that it has
/// found are source files.
#[derive(Debug)]
pub struct Walk {
    excluded: ExclusionSet,
    pending: Vec<String>,
    found: Vec<String>,
}

/// A walk that waits for the listing of one directory.
#[derive(Debug)]
pub struct Waiting {
    walk: Walk,
    directory: String,
}

/// What a walk asks for next.
#[derive(Debug)]
pub enum WalkStep {
    /// List the directory that the walk waits for, and hand the listing to
    /// it.
    List(Waiting),
    /// Nothing is left to list: these are the source files of the tree, in
    /// ascending order of their paths.
    Done(Vec<String>),
}

impl Walk {
    /// The names of the directories that the walk leaves out.
    pub closed spec fn excluded(&self) -> Set<Seq<char>> {
        self.excluded@
    }

    /// The directories that are still to be listed. The last one is listed
    /// next.
    pub closed spec fn pending(&self) -> Seq<Seq<char>> {
        self.pending.deep_view()
    }

    /// The source files found so far, in the order in which they were found.
    pub closed spec fn found(&self) -> Seq<Seq<char>> {
        self.found.deep_view()
    }

    #[verifier::type_invariant]
    spec fn well_formed(&self) -> bool {
        &&& all_avoid(self.pending.deep_view(), self.excluded@)
        &&& all_source_paths(self.found.deep_view(), self.excluded@)
    }

    /// The walk of a tree, before anything is listed: only the root is to
    /// be listed.
    pub fn new(excluded: ExclusionSet) -> (walk: Walk)
        ensures
            walk.excluded() == excluded@,
            walk.pending() == seq![Seq::<char>::empty()],
            walk.found() == Seq::<Seq<char>>::empty(),
    {
        let mut pending: Vec<String> = Vec::new();
        pending.push(String::new());
        proof {
            assert(pending.deep_view() == seq![Seq::<char>::empty()]);
            lemma_root_avoids(excluded@);
        }
        let found: Vec<String> = Vec::new();
        assert(found.deep_view() == Seq::<Seq<char>>::empty());
        Walk { excluded, pending, found }
    }

    /// Says what the walk asks for next: the listing of the directory that
    /// was found last among those still to be listed, or nothing more. In
    /// that case the walk ends, and the source files found come out in
    /// ascending order of their paths.
    ///
    /// No directory that the walk asks for lies below an excluded one, and
    /// no file that comes out does.
    pub fn next(self) -> (step: WalkStep)
        ensures
            match step {
                WalkStep::List(waiting) => self.pending() == waiting.walk().pending().push(
                    waiting.directory(),
                ) && waiting.walk().found() == self.found() && waiting.walk().excluded()
                    == self.excluded() && avoids(waiting.directory(), self.excluded()),
                WalkStep::Done(files) => self.pending().len() == 0 && ascending(
                    files.deep_view(),
                ) && files.deep_view().to_multiset() == self.found().to_multiset()
                    && all_source_paths(files.deep_view(), self.excluded()),
            },
    {
        proof {
            use_type_invariant(&self);
        }
        let Walk { excluded, mut pending, found } = self;
        let ghost before = pending.deep_view();
        match pending.pop() {
            Some(directory) => {
                proof {
                    assert(pending.deep_view() == before.drop_last());
                    assert(before == before.drop_last().push(directory@));
                    assert(avoids(before[before.len() - 1], excluded@));
                    assert forall|i: int| 0 <= i < pending.deep_view().len() implies avoids(
                        #[trigger] pending.deep_view()[i],
                        excluded@,
                    ) by {
                        assert(pending.deep_view()[i] == before[i]);
                    }
                }
                WalkStep::List(Waiting { walk: Walk { excluded, pending, found }, directory })
            },
            None => {
                let ghost unsorted = found.deep_view();
                let files = sort_paths(found);
                proof {
                    assert forall|i: int| 0 <= i < files.deep_view().len() implies is_source_path(
                        #[trigger] files.deep_view()[i],
                        excluded@,
                    ) by {
                        let path = files.deep_view()[i];
                        assert(files.deep_view().contains(path));
                        vstd::seq_lib::to_multiset_contains(files.deep_view(), path);
                        vstd::seq_lib::to_multiset_contains(unsorted, path);
                        let k = choose|k: int| 0 <= k < unsorted.len() && unsorted[k] == path;
                        assert(is_source_path(unsorted[k], excluded@));
                    }
                }
                WalkStep::Done(files)
            },
        }
    }
}

impl Waiting {
    /// The walk as it goes on once the listing is in.
    pub closed spec fn walk(&self) -> Walk {
        self.walk
    }

    /// The path of the directory whose listing the walk waits for.
    pub closed spec fn directory(&self) -> Seq<char> {
        self.directory@
    }

    #[verifier::type_invariant]
    spec fn well_formed(&self) -> bool {
        avoids(self.directory@, self.walk.excluded@)
    }

    /// Gives the path of the directory to list.
    pub fn path(&self) -> (path: &str)
        ensures
            path@ == self.directory(),
    {
        self.directory.as_str()
    }

    /// Takes the listing of the directory that the walk waits for.
    ///
    /// Of its entries, each directory whose name is not excluded is added
    /// to those that are still to be listed, and each regular file with the
    /// name of a source file is added to the files found. An entry whose
    /// name is empty or holds a `/` is passed over. Nothing is added for a
    /// path that is no directory. A listing that failed ends the walk with
    /// `ScanFailed`.
    pub fn visit(self, listing: &Listing) -> (result: Result<Walk, ScrapeError>)
        ensures
            match *listing {
                Listing::NotADirectory => result matches Ok(walk) && walk.excluded()
                    == self.walk().excluded() && walk.pending() == self.walk().pending()
                    && walk.found() == self.walk().found(),
                Listing::Failed(cause) => result == Err::<Walk, _>(ScrapeError::ScanFailed(cause)),
                Listing::Entries(entries) => result matches Ok(walk) && walk.excluded()
                    == self.walk().excluded() && walk.pending() == self.walk().pending()
                    + directories_to_visit(self.directory(), entries@, self.walk().excluded())
                    && walk.found() == self.walk().found() + source_files(
                    self.directory(),
                    entries@,
                ),
            },
    {
        proof {
            use_type_invariant(&self);
            use_type_invariant(&self.walk);
        }
        let Waiting { walk, directory: dir } = self;
        let Walk { excluded, mut pending, mut found } = walk;
        match listing {
            Listing::NotADirectory => Ok(Walk { excluded, pending, found }),
            Listing::Failed(cause) => Err(ScrapeError::ScanFailed(cause.clone())),
            Listing::Entries(entries) => {
                let ghost pending_before = pending.deep_view();
                let ghost found_before = found.deep_view();
                let ghost descend = |entry: DirEntry| descended(dir@, entry, excluded@);
                let ghost collect = |entry: DirEntry| collected(dir@, entry);
                let mut i: usize = 0;
                proof {
                    assert(entries@.take(0).filter_map(descend) == Seq::<Seq<char>>::empty());
                    assert(entries@.take(0).filter_map(collect) == Seq::<Seq<char>>::empty());
                    assert(pending_before + Seq::<Seq<char>>::empty() == pending_before);
                    assert(found_before + Seq::<Seq<char>>::empty() == found_before);
                }
                while i < entries.len()
                    invariant
                        i <= entries.len(),
                        descend == |entry: DirEntry| descended(dir@, entry, excluded@),
                        collect == |entry: DirEntry| collected(dir@, entry),
                        pending.deep_view() == pending_before + entries@.take(
                            i as int,
                        ).filter_map(descend),
                        found.deep_view() == found_before + entries@.take(i as int).filter_map(
                            collect,
                        ),
                        avoids(dir@, excluded@),
                        all_avoid(pending.deep_view(), excluded@),
                        all_source_paths(found.deep_view(), excluded@),
                    decreases entries.len() - i,
                {
                    let ghost pending_now = pending.deep_view();
                    let ghost found_now = found.deep_view();
                    proof {
                        entries@.lemma_filter_map_take_succ(descend, i as int);
                        entries@.lemma_filter_map_take_succ(collect, i as int);
                    }
                    let entry = &entries[i];
                    let plain = is_entry_name(entry.name.as_str());
                    match entry.kind {
                        EntryKind::Directory => {
                            if plain && !excluded.contains(entry.name.as_str()) {
                                let path = join_path(dir.as_str(), entry.name.as_str());
                                pending.push(path);
                                proof {
                                    let child = child_path(dir@, entry.name@);
                                    assert(pending.deep_view() == pending_now.push(child));
                                    lemma_child_avoids(dir@, entry.name@, excluded@);
                                    assert forall|k: int|
                                        0 <= k < pending_now.push(child).len() implies avoids(
                                        #[trigger] pending_now.push(child)[k],
                                        excluded@,
                                    ) by {
                                        if k < pending_now.len() {
                                            assert(pending_now.push(child)[k] == pending_now[k]);
                                        }
                                    }
                                }
                            }
                        },
                        EntryKind::File => {
                            if plain && is_solidity_file(entry.name.as_str()) {
                                let path = join_path(dir.as_str(), entry.name.as_str());
                                found.push(path);
                                proof {
                                    let child = child_path(dir@, entry.name@);
                                    assert(found.deep_view() == found_now.push(child));
                                    lemma_child_is_source(dir@, entry.name@, excluded@);
                                    assert forall|k: int|
                                        0 <= k < found_now.push(
                                            child,
                                        ).len() implies is_source_path(
                                        #[trigger] found_now.push(child)[k],
                                        excluded@,
                                    ) by {
                                        if k < found_now.len() {
                                            assert(found_now.push(child)[k] == found_now[k]);
                                        }
                                    }
                                }
                            }
                        },
                        EntryKind::Other => {},
                    }
                    proof {
                        let step = entries@.take(i as int);
                        assert(pending.deep_view() == pending_before + (step.filter_map(descend)
                            + (match descended(dir@, *entry, excluded@) {
                            Some(p) => seq![p],
                            None => Seq::empty(),
                        })));
                        assert(found.deep_view() == found_before + (step.filter_map(collect)
                            + (match collected(dir@, *entry) {
                            Some(p) => seq![p],
                            None => Seq::empty(),
                        })));
                    }
                    i += 1;
                }
                proof {
                    assert(entries@.take(i as int) == entries@);
                }
                Ok(Walk { excluded, pending, found })
            },
        }
    }
}

} // verus!
