//! What a walk finds in a given tree. A tree is taken as the listings of
//! its directories, each under the path of the directory below the root;
//! a path without a listing is no directory. If every listing that a walk
//! is handed is that of the tree, the walk ends with the source files of
//! the tree that lie below no excluded directory: with all of them, and
//! with nothing else. If moreover no directory lists a name twice, it ends
//! with each of these files once, so that the order in which directories
//! list their entries does not show in what comes out.
//!
//! The laws speak of the directories that are still to be listed and of the
//! files found, as `Walk::next` and `Waiting::visit` change them. `walked`
//! follows a whole walk of a tree, listing by listing, and
//! `lemma_whole_walks_agree` says that two whole walks of one tree give the
//! same files in the same order, in whatever order the directories list
//! their entries to each.

use crate::discovery::{
    child_path, collected, descended, directories_to_visit, is_plain_name, is_source_name,
    source_files, DirEntry, EntryKind,
};
use crate::order::{ascending, lemma_ascending_unique};
use vstd::prelude::*;

verus! {

/// The path made of `names`, from the root down.
pub open spec fn path_of(names: Seq<Seq<char>>) -> Seq<char>
    decreases names.len(),
{
    if names.len() == 0 {
        Seq::empty()
    } else {
        child_path(path_of(names.drop_last()), names.last())
    }
}

/// The directory at `dir` lists a directory called `name`.
pub open spec fn lists_directory(
    tree: Map<Seq<char>, Seq<DirEntry>>,
    dir: Seq<char>,
    name: Seq<char>,
) -> bool {
    tree.dom().contains(dir) && is_plain_name(name) && exists|i: int|
        #![trigger tree[dir][i]]
        0 <= i < tree[dir].len() && tree[dir][i].kind == EntryKind::Directory && tree[dir][i].name@
            == name
}

/// The directory at `dir` lists a regular file called `name`.
pub open spec fn lists_file(
    tree: Map<Seq<char>, Seq<DirEntry>>,
    dir: Seq<char>,
    name: Seq<char>,
) -> bool {
    tree.dom().contains(dir) && is_plain_name(name) && exists|i: int|
        #![trigger tree[dir][i]]
        0 <= i < tree[dir].len() && tree[dir][i].kind == EntryKind::File && tree[dir][i].name@
            == name
}

/// The names `names` lead from the root down through directories of the
/// tree of which none is excluded.
pub open spec fn leads_down(
    tree: Map<Seq<char>, Seq<DirEntry>>,
    excluded: Set<Seq<char>>,
    names: Seq<Seq<char>>,
) -> bool
    decreases names.len(),
{
    names.len() == 0 || (leads_down(tree, excluded, names.drop_last()) && lists_directory(
        tree,
        path_of(names.drop_last()),
        names.last(),
    ) && !excluded.contains(names.last()))
}

/// `path` is that of a directory of the tree that lies below no excluded
/// directory and is not excluded itself, or that of the root.
pub open spec fn is_open_directory(
    tree: Map<Seq<char>, Seq<DirEntry>>,
    excluded: Set<Seq<char>>,
    path: Seq<char>,
) -> bool {
    exists|names: Seq<Seq<char>>|
        #![trigger path_of(names)]
        leads_down(tree, excluded, names) && path == path_of(names)
}

/// `path` is that of a source file of the tree that lies below no excluded
/// directory.
pub open spec fn is_open_source(
    tree: Map<Seq<char>, Seq<DirEntry>>,
    excluded: Set<Seq<char>>,
    path: Seq<char>,
) -> bool {
    exists|names: Seq<Seq<char>>, name: Seq<char>|
        #![trigger child_path(path_of(names), name)]
        leads_down(tree, excluded, names) && lists_file(tree, path_of(names), name)
            && is_source_name(name) && path == child_path(path_of(names), name)
}

/// One of the directories on the way down `names`, the last one included,
/// is still to be listed.
pub open spec fn waits_on(pending: Seq<Seq<char>>, names: Seq<Seq<char>>) -> bool {
    exists|k: int| 0 <= k <= names.len() && pending.contains(#[trigger] path_of(names.take(k)))
}

/// What holds between two listings of a walk of `tree`: all that is still to
/// be listed and all that was found is in the tree, below no excluded
/// directory, and every source file of the tree below no excluded directory
/// was found or lies in or below a directory that is still to be listed.
pub open spec fn walks(
    tree: Map<Seq<char>, Seq<DirEntry>>,
    excluded: Set<Seq<char>>,
    pending: Seq<Seq<char>>,
    found: Seq<Seq<char>>,
) -> bool {
    &&& forall|i: int|
        0 <= i < pending.len() ==> is_open_directory(tree, excluded, #[trigger] pending[i])
    &&& forall|i: int| 0 <= i < found.len() ==> is_open_source(tree, excluded, #[trigger] found[i])
    &&& forall|names: Seq<Seq<char>>, name: Seq<char>|
        #![trigger child_path(path_of(names), name)]
        leads_down(tree, excluded, names) && lists_file(tree, path_of(names), name)
            && is_source_name(name) ==> found.contains(child_path(path_of(names), name))
            || waits_on(pending, names)
}

/// What a choice of `f` gives for one of the items is among what it gives
/// for all of them.
proof fn lemma_filter_map_has<A, B>(items: Seq<A>, f: spec_fn(A) -> Option<B>, j: int)
    requires
        0 <= j < items.len(),
        f(items[j]) is Some,
    ensures
        items.filter_map(f).contains(f(items[j])->0),
    decreases items.len(),
{
    let rest = items.drop_last();
    let chosen = f(items[j])->0;
    if j == items.len() - 1 {
        let all = rest.filter_map(f) + seq![chosen];
        assert(all[all.len() - 1] == chosen);
    } else {
        lemma_filter_map_has(rest, f, j);
        let k = choose|k: int| 0 <= k < rest.filter_map(f).len() && rest.filter_map(f)[k] == chosen;
        assert(items.filter_map(f)[k] == chosen);
    }
}

/// A way down leads down at each of its steps.
pub proof fn lemma_leads_down_step(
    tree: Map<Seq<char>, Seq<DirEntry>>,
    excluded: Set<Seq<char>>,
    names: Seq<Seq<char>>,
    k: int,
)
    requires
        leads_down(tree, excluded, names),
        0 <= k <= names.len(),
    ensures
        leads_down(tree, excluded, names.take(k)),
        k < names.len() ==> lists_directory(tree, path_of(names.take(k)), names[k])
            && !excluded.contains(names[k]) && path_of(names.take(k + 1)) == child_path(
            path_of(names.take(k)),
            names[k],
        ),
    decreases names.len(),
{
    if k == names.len() {
        assert(names.take(k) == names);
    } else if k == names.len() - 1 {
        assert(names.take(k) == names.drop_last());
        assert(names.take(k + 1) == names);
    } else {
        lemma_leads_down_step(tree, excluded, names.drop_last(), k);
        assert(names.drop_last().take(k) == names.take(k));
        assert(names.drop_last().take(k + 1) == names.take(k + 1));
    }
}

/// Before anything is listed, the walk of a tree is as it should be.
pub proof fn lemma_walk_begins(tree: Map<Seq<char>, Seq<DirEntry>>, excluded: Set<Seq<char>>)
    ensures
        walks(tree, excluded, seq![Seq::<char>::empty()], Seq::empty()),
{
    let root = Seq::<char>::empty();
    let pending = seq![root];
    let none = Seq::<Seq<char>>::empty();
    assert(path_of(none) == root);
    assert(leads_down(tree, excluded, none));
    assert(is_open_directory(tree, excluded, pending[0]));
    assert forall|names: Seq<Seq<char>>| waits_on(pending, names) by {
        assert(names.take(0) == none);
        assert(pending[0] == path_of(names.take(0)));
    }
}

/// The walk of a tree stays as it should be when it is handed the listing
/// that the tree has for the directory it asked for.
pub proof fn lemma_walk_lists(
    tree: Map<Seq<char>, Seq<DirEntry>>,
    excluded: Set<Seq<char>>,
    pending: Seq<Seq<char>>,
    found: Seq<Seq<char>>,
    dir: Seq<char>,
)
    requires
        walks(tree, excluded, pending.push(dir), found),
        tree.dom().contains(dir),
    ensures
        walks(
            tree,
            excluded,
            pending + directories_to_visit(dir, tree[dir], excluded),
            found + source_files(dir, tree[dir]),
        ),
{
    let entries = tree[dir];
    let descend = |entry: DirEntry| descended(dir, entry, excluded);
    let collect = |entry: DirEntry| collected(dir, entry);
    let more_pending = directories_to_visit(dir, entries, excluded);
    let more_found = source_files(dir, entries);
    let pending_after = pending + more_pending;
    let found_after = found + more_found;

    assert(pending.push(dir)[pending.len() as int] == dir);
    let above = choose|names: Seq<Seq<char>>|
        #![trigger path_of(names)]
        leads_down(tree, excluded, names) && dir == path_of(names);

    assert forall|i: int| 0 <= i < pending_after.len() implies is_open_directory(
        tree,
        excluded,
        #[trigger] pending_after[i],
    ) by {
        if i < pending.len() {
            assert(pending_after[i] == pending.push(dir)[i]);
        } else {
            let path = pending_after[i];
            assert(more_pending[i - pending.len()] == path);
            entries.lemma_filter_map_contains(descend, path);
            let entry = choose|entry: DirEntry| entries.contains(entry) && descend(entry) == Some(path);
            let j = choose|j: int| 0 <= j < entries.len() && entries[j] == entry;
            let names = above.push(entry.name@);
            assert(names.drop_last() == above);
            assert(tree[dir][j].kind == EntryKind::Directory);
            assert(lists_directory(tree, dir, entry.name@));
            assert(leads_down(tree, excluded, names));
            assert(path == path_of(names));
        }
    }
    assert forall|i: int| 0 <= i < found_after.len() implies is_open_source(
        tree,
        excluded,
        #[trigger] found_after[i],
    ) by {
        if i < found.len() {
            assert(found_after[i] == found[i]);
        } else {
            let path = found_after[i];
            assert(more_found[i - found.len()] == path);
            entries.lemma_filter_map_contains(collect, path);
            let entry = choose|entry: DirEntry| entries.contains(entry) && collect(entry) == Some(path);
            let j = choose|j: int| 0 <= j < entries.len() && entries[j] == entry;
            assert(tree[dir][j].kind == EntryKind::File);
            assert(lists_file(tree, path_of(above), entry.name@));
            assert(path == child_path(path_of(above), entry.name@));
        }
    }
    assert forall|names: Seq<Seq<char>>, name: Seq<char>|
        #![trigger child_path(path_of(names), name)]
        leads_down(tree, excluded, names) && lists_file(tree, path_of(names), name)
            && is_source_name(name) implies found_after.contains(
        child_path(path_of(names), name),
    ) || waits_on(pending_after, names) by {
        let path = child_path(path_of(names), name);
        if found.contains(path) {
            let i = choose|i: int| 0 <= i < found.len() && found[i] == path;
            assert(found_after[i] == path);
        } else {
            assert(waits_on(pending.push(dir), names));
            let k = choose|k: int|
                0 <= k <= names.len() && pending.push(dir).contains(
                    #[trigger] path_of(names.take(k)),
                );
            let here = path_of(names.take(k));
            let i = choose|i: int| 0 <= i < pending.push(dir).len() && pending.push(dir)[i] == here;
            if i < pending.len() {
                assert(pending_after[i] == here);
            } else if k == names.len() {
                assert(names.take(k) == names);
                let j = choose|j: int|
                    #![trigger tree[dir][j]]
                    0 <= j < tree[dir].len() && tree[dir][j].kind == EntryKind::File
                        && tree[dir][j].name@ == name;
                assert(collect(entries[j]) == Some(path));
                lemma_filter_map_has(entries, collect, j);
                let m = choose|m: int| 0 <= m < more_found.len() && more_found[m] == path;
                assert(found_after[found.len() + m] == path);
            } else {
                lemma_leads_down_step(tree, excluded, names, k);
                let j = choose|j: int|
                    #![trigger tree[dir][j]]
                    0 <= j < tree[dir].len() && tree[dir][j].kind == EntryKind::Directory
                        && tree[dir][j].name@ == names[k];
                let below = child_path(dir, names[k]);
                assert(descend(entries[j]) == Some(below));
                lemma_filter_map_has(entries, descend, j);
                let m = choose|m: int| 0 <= m < more_pending.len() && more_pending[m] == below;
                assert(pending_after[pending.len() + m] == below);
                assert(pending_after.contains(path_of(names.take(k + 1))));
            }
        }
    }
}

/// The walk of a tree stays as it should be when the directory it asked for
/// is none of the tree, and nothing is listed for it.
pub proof fn lemma_walk_skips(
    tree: Map<Seq<char>, Seq<DirEntry>>,
    excluded: Set<Seq<char>>,
    pending: Seq<Seq<char>>,
    found: Seq<Seq<char>>,
    dir: Seq<char>,
)
    requires
        walks(tree, excluded, pending.push(dir), found),
        !tree.dom().contains(dir),
    ensures
        walks(tree, excluded, pending, found),
{
    assert forall|i: int| 0 <= i < pending.len() implies is_open_directory(
        tree,
        excluded,
        #[trigger] pending[i],
    ) by {
        assert(pending[i] == pending.push(dir)[i]);
    }
    assert forall|names: Seq<Seq<char>>, name: Seq<char>|
        #![trigger child_path(path_of(names), name)]
        leads_down(tree, excluded, names) && lists_file(tree, path_of(names), name)
            && is_source_name(name) implies found.contains(child_path(path_of(names), name))
        || waits_on(pending, names) by {
        if !found.contains(child_path(path_of(names), name)) {
            let k = choose|k: int|
                0 <= k <= names.len() && pending.push(dir).contains(
                    #[trigger] path_of(names.take(k)),
                );
            let here = path_of(names.take(k));
            let i = choose|i: int| 0 <= i < pending.push(dir).len() && pending.push(dir)[i] == here;
            if i < pending.len() {
                assert(pending[i] == here);
            } else if k == names.len() {
                assert(names.take(k) == names);
            } else {
                lemma_leads_down_step(tree, excluded, names, k);
            }
        }
    }
}

/// When nothing is left to list, the walk of a tree has found the source
/// files of the tree that lie below no excluded directory: every one of
/// them, and nothing else.
pub proof fn lemma_walk_ends(
    tree: Map<Seq<char>, Seq<DirEntry>>,
    excluded: Set<Seq<char>>,
    found: Seq<Seq<char>>,
)
    requires
        walks(tree, excluded, Seq::empty(), found),
    ensures
        forall|path: Seq<char>| found.contains(path) <==> is_open_source(tree, excluded, path),
{
    let none = Seq::<Seq<char>>::empty();
    assert forall|path: Seq<char>| found.contains(path) <==> is_open_source(
        tree,
        excluded,
        path,
    ) by {
        if found.contains(path) {
            let i = choose|i: int| 0 <= i < found.len() && found[i] == path;
            assert(is_open_source(tree, excluded, found[i]));
        }
        if is_open_source(tree, excluded, path) {
            let (names, name) = choose|names: Seq<Seq<char>>, name: Seq<char>|
                #![trigger child_path(path_of(names), name)]
                leads_down(tree, excluded, names) && lists_file(tree, path_of(names), name)
                    && is_source_name(name) && path == child_path(path_of(names), name);
            assert(found.contains(child_path(path_of(names), name)) || waits_on(none, names));
            assert(!waits_on(none, names));
        }
    }
}

/// The files that a walk of a tree gives when it is done are the source
/// files of the tree that lie below no excluded directory, whatever the
/// order in which the directories listed their entries.
pub proof fn lemma_walk_gives(
    tree: Map<Seq<char>, Seq<DirEntry>>,
    excluded: Set<Seq<char>>,
    found: Seq<Seq<char>>,
    files: Seq<Seq<char>>,
)
    requires
        walks(tree, excluded, Seq::empty(), found),
        files.to_multiset() == found.to_multiset(),
    ensures
        forall|path: Seq<char>| files.contains(path) <==> is_open_source(tree, excluded, path),
{
    lemma_walk_ends(tree, excluded, found);
    assert forall|path: Seq<char>| files.contains(path) <==> is_open_source(
        tree,
        excluded,
        path,
    ) by {
        vstd::seq_lib::to_multiset_contains(files, path);
        vstd::seq_lib::to_multiset_contains(found, path);
    }
}

/// No two entries of `entries` have the same name.
pub open spec fn is_plain_listing(entries: Seq<DirEntry>) -> bool {
    forall|i: int, j: int|
        0 <= i < j < entries.len() ==> (#[trigger] entries[i]).name@ != (#[trigger] entries[j]).name@
}

/// `path` is that of an entry of a directory that was listed.
pub open spec fn is_listed(visited: Set<Seq<char>>, path: Seq<char>) -> bool {
    exists|dir: Seq<char>, name: Seq<char>|
        #![trigger child_path(dir, name)]
        visited.contains(dir) && is_plain_name(name) && path == child_path(dir, name)
}

/// What holds between two listings of a walk of a tree in which no
/// directory lists a name twice, when `visited` are the directories that
/// the walk has asked for so far: nothing is to be listed twice and nothing
/// was found twice.
pub open spec fn walks_once(
    visited: Set<Seq<char>>,
    pending: Seq<Seq<char>>,
    found: Seq<Seq<char>>,
) -> bool {
    &&& pending.no_duplicates()
    &&& found.no_duplicates()
    &&& forall|i: int|
        0 <= i < pending.len() ==> !visited.contains(#[trigger] pending[i]) && (pending[i].len()
            == 0 || is_listed(visited, pending[i]))
    &&& forall|i: int| 0 <= i < found.len() ==> is_listed(visited, #[trigger] found[i])
    &&& forall|path: Seq<char>| #[trigger]
        visited.contains(path) ==> path.len() == 0 || is_listed(visited, path)
}

/// The path of an entry is longer than that of its directory.
pub proof fn lemma_child_path_longer(dir: Seq<char>, name: Seq<char>)
    requires
        is_plain_name(name),
    ensures
        child_path(dir, name).len() > dir.len(),
{
}

/// The path of an entry tells its directory and its name.
pub proof fn lemma_child_path_injective(
    dir: Seq<char>,
    name: Seq<char>,
    other_dir: Seq<char>,
    other_name: Seq<char>,
)
    requires
        is_plain_name(name),
        is_plain_name(other_name),
        child_path(dir, name) == child_path(other_dir, other_name),
    ensures
        dir == other_dir,
        name == other_name,
{
    let path = child_path(dir, name);
    if dir.len() == 0 && other_dir.len() > 0 {
        assert(path[other_dir.len() as int] == '/');
        assert(false);
    }
    if dir.len() > 0 && other_dir.len() == 0 {
        assert(path[dir.len() as int] == '/');
        assert(false);
    }
    if dir.len() > 0 && other_dir.len() > 0 {
        let left = dir + seq!['/'] + name;
        let right = other_dir + seq!['/'] + other_name;
        assert(left == right);
        assert(left.len() == dir.len() + 1 + name.len());
        assert(right.len() == other_dir.len() + 1 + other_name.len());
        if dir.len() < other_dir.len() {
            let at = other_dir.len() as int;
            assert(right[at] == '/');
            assert(left[at] == name[at - dir.len() - 1]);
            assert(false);
        }
        if other_dir.len() < dir.len() {
            let at = dir.len() as int;
            assert(left[at] == '/');
            assert(right[at] == other_name[at - other_dir.len() - 1]);
            assert(false);
        }
        assert(dir == left.take(dir.len() as int));
        assert(other_dir == right.take(dir.len() as int));
        assert(name == left.skip(dir.len() as int + 1));
        assert(other_name == right.skip(dir.len() as int + 1));
    }
}

/// What a choice among the entries of one directory gives as paths, it
/// gives once each.
proof fn lemma_chosen_once(
    dir: Seq<char>,
    entries: Seq<DirEntry>,
    f: spec_fn(DirEntry) -> Option<Seq<char>>,
)
    requires
        is_plain_listing(entries),
        forall|entry: DirEntry| #[trigger] f(entry) is Some ==> is_plain_name(entry.name@) && f(entry)
            == Some(child_path(dir, entry.name@)),
    ensures
        entries.filter_map(f).no_duplicates(),
    decreases entries.len(),
{
    if entries.len() > 0 {
        let rest = entries.drop_last();
        let last = entries.last();
        assert forall|i: int, j: int| 0 <= i < j < rest.len() implies (#[trigger] rest[i]).name@ != (
        #[trigger] rest[j]).name@ by {
            assert(rest[i] == entries[i]);
            assert(rest[j] == entries[j]);
        }
        lemma_chosen_once(dir, rest, f);
        if f(last) is Some {
            let path = child_path(dir, last.name@);
            if rest.filter_map(f).contains(path) {
                rest.lemma_filter_map_contains(f, path);
                let entry = choose|entry: DirEntry| rest.contains(entry) && f(entry) == Some(path);
                let j = choose|j: int| 0 <= j < rest.len() && rest[j] == entry;
                assert(entries[j] == entry);
                assert(entries[entries.len() - 1] == last);
                lemma_child_path_injective(dir, entry.name@, dir, last.name@);
                assert(false);
            }
            vstd::seq_lib::lemma_no_dup_in_concat(rest.filter_map(f), seq![path]);
        }
    } else {
        assert(entries.filter_map(f).len() == 0);
    }
}

/// What a choice among the entries of one directory gives as paths are
/// paths of entries of that directory.
proof fn lemma_chosen_listed(
    dir: Seq<char>,
    entries: Seq<DirEntry>,
    f: spec_fn(DirEntry) -> Option<Seq<char>>,
    k: int,
)
    requires
        forall|entry: DirEntry| #[trigger] f(entry) is Some ==> is_plain_name(entry.name@) && f(entry)
            == Some(child_path(dir, entry.name@)),
        0 <= k < entries.filter_map(f).len(),
    ensures
        exists|name: Seq<char>|
            #![trigger child_path(dir, name)]
            is_plain_name(name) && entries.filter_map(f)[k] == child_path(dir, name),
{
    let path = entries.filter_map(f)[k];
    entries.lemma_filter_map_contains(f, path);
    let entry = choose|entry: DirEntry| entries.contains(entry) && f(entry) == Some(path);
    assert(path == child_path(dir, entry.name@));
}

/// Before anything is listed, nothing is to be listed twice.
pub proof fn lemma_walk_begins_once()
    ensures
        walks_once(Set::empty(), seq![Seq::<char>::empty()], Seq::empty()),
{
}

/// What was listed stays listed when one more directory is listed.
proof fn lemma_listed_more(visited: Set<Seq<char>>, dir: Seq<char>, path: Seq<char>)
    requires
        is_listed(visited, path),
    ensures
        is_listed(visited.insert(dir), path),
{
    let (d, n) = choose|d: Seq<char>, n: Seq<char>|
        #![trigger child_path(d, n)]
        visited.contains(d) && is_plain_name(n) && path == child_path(d, n);
    assert(visited.insert(dir).contains(d) && is_plain_name(n) && path == child_path(d, n));
}

/// What was listed lies in no directory that was not listed.
proof fn lemma_listed_elsewhere(
    visited: Set<Seq<char>>,
    path: Seq<char>,
    dir: Seq<char>,
    name: Seq<char>,
)
    requires
        is_listed(visited, path),
        !visited.contains(dir),
        is_plain_name(name),
    ensures
        path != child_path(dir, name),
{
    let (d, n) = choose|d: Seq<char>, n: Seq<char>|
        #![trigger child_path(d, n)]
        visited.contains(d) && is_plain_name(n) && path == child_path(d, n);
    if path == child_path(dir, name) {
        lemma_child_path_injective(d, n, dir, name);
    }
}

/// Nothing is listed or found twice when the walk is handed the listing of
/// a directory it asked for, if the listing holds no name twice.
pub proof fn lemma_walk_lists_once(
    excluded: Set<Seq<char>>,
    visited: Set<Seq<char>>,
    pending: Seq<Seq<char>>,
    found: Seq<Seq<char>>,
    dir: Seq<char>,
    entries: Seq<DirEntry>,
)
    requires
        walks_once(visited, pending.push(dir), found),
        is_plain_listing(entries),
    ensures
        walks_once(
            visited.insert(dir),
            pending + directories_to_visit(dir, entries, excluded),
            found + source_files(dir, entries),
        ),
{
    let descend = |entry: DirEntry| descended(dir, entry, excluded);
    let collect = |entry: DirEntry| collected(dir, entry);
    let more_pending = directories_to_visit(dir, entries, excluded);
    let more_found = source_files(dir, entries);
    let pending_after = pending + more_pending;
    let found_after = found + more_found;
    let visited_after = visited.insert(dir);
    let before = pending.push(dir);

    assert(before[pending.len() as int] == dir);
    assert(!visited.contains(dir));
    assert forall|i: int| 0 <= i < pending.len() implies pending[i] == #[trigger] before[i] by {}
    lemma_chosen_once(dir, entries, descend);
    lemma_chosen_once(dir, entries, collect);

    assert forall|k: int| 0 <= k < more_pending.len() implies is_listed(
        visited_after,
        #[trigger] more_pending[k],
    ) && !visited_after.contains(more_pending[k]) && !pending.contains(more_pending[k]) by {
        lemma_chosen_listed(dir, entries, descend, k);
        let name = choose|name: Seq<char>|
            #![trigger child_path(dir, name)]
            is_plain_name(name) && more_pending[k] == child_path(dir, name);
        let path = child_path(dir, name);
        assert(visited_after.contains(dir));
        lemma_child_path_longer(dir, name);
        if visited.contains(path) {
            lemma_listed_elsewhere(visited, path, dir, name);
        }
        if pending.contains(path) {
            let i = choose|i: int| 0 <= i < pending.len() && pending[i] == path;
            assert(before[i] == path);
            lemma_listed_elsewhere(visited, path, dir, name);
        }
    }
    assert forall|k: int| 0 <= k < more_found.len() implies is_listed(
        visited_after,
        #[trigger] more_found[k],
    ) && !found.contains(more_found[k]) by {
        lemma_chosen_listed(dir, entries, collect, k);
        let name = choose|name: Seq<char>|
            #![trigger child_path(dir, name)]
            is_plain_name(name) && more_found[k] == child_path(dir, name);
        let path = child_path(dir, name);
        assert(visited_after.contains(dir));
        if found.contains(path) {
            let i = choose|i: int| 0 <= i < found.len() && found[i] == path;
            lemma_listed_elsewhere(visited, found[i], dir, name);
        }
    }
    assert(pending.no_duplicates()) by {
        assert forall|i: int, j: int|
            0 <= i < pending.len() && 0 <= j < pending.len() && i != j implies pending[i]
            != pending[j] by {
            assert(before[i] != before[j]);
        }
    }
    assert forall|i: int, j: int| 0 <= i < pending.len() && 0 <= j < more_pending.len() implies pending[i]
        != more_pending[j] by {
        assert(!pending.contains(more_pending[j]));
    }
    assert forall|i: int, j: int| 0 <= i < found.len() && 0 <= j < more_found.len() implies found[i]
        != more_found[j] by {
        assert(!found.contains(more_found[j]));
    }
    vstd::seq_lib::lemma_no_dup_in_concat(pending, more_pending);
    vstd::seq_lib::lemma_no_dup_in_concat(found, more_found);

    assert forall|i: int| 0 <= i < pending_after.len() implies !visited_after.contains(
        #[trigger] pending_after[i],
    ) && (pending_after[i].len() == 0 || is_listed(visited_after, pending_after[i])) by {
        if i < pending.len() {
            assert(pending_after[i] == before[i]);
            assert(before[i] != before[pending.len() as int]);
            if pending_after[i].len() != 0 {
                lemma_listed_more(visited, dir, pending_after[i]);
            }
        } else {
            assert(pending_after[i] == more_pending[i - pending.len()]);
        }
    }
    assert forall|i: int| 0 <= i < found_after.len() implies is_listed(
        visited_after,
        #[trigger] found_after[i],
    ) by {
        if i < found.len() {
            assert(found_after[i] == found[i]);
            lemma_listed_more(visited, dir, found[i]);
        } else {
            assert(found_after[i] == more_found[i - found.len()]);
        }
    }
    assert forall|path: Seq<char>| #[trigger] visited_after.contains(path) implies path.len() == 0
        || is_listed(visited_after, path) by {
        if path == dir {
            if dir.len() != 0 {
                lemma_listed_more(visited, dir, dir);
            }
        } else if path.len() != 0 {
            lemma_listed_more(visited, dir, path);
        }
    }
}

/// Nothing is listed or found twice when the directory that the walk asked
/// for gives no listing.
pub proof fn lemma_walk_skips_once(
    visited: Set<Seq<char>>,
    pending: Seq<Seq<char>>,
    found: Seq<Seq<char>>,
    dir: Seq<char>,
)
    requires
        walks_once(visited, pending.push(dir), found),
    ensures
        walks_once(visited.insert(dir), pending, found),
{
    let before = pending.push(dir);
    let visited_after = visited.insert(dir);
    assert(before[pending.len() as int] == dir);
    assert forall|i: int| 0 <= i < pending.len() implies pending[i] == #[trigger] before[i] by {}
    assert(pending.no_duplicates()) by {
        assert forall|i: int, j: int|
            0 <= i < pending.len() && 0 <= j < pending.len() && i != j implies pending[i]
            != pending[j] by {
            assert(before[i] != before[j]);
        }
    }
    assert forall|i: int| 0 <= i < pending.len() implies !visited_after.contains(
        #[trigger] pending[i],
    ) && (pending[i].len() == 0 || is_listed(visited_after, pending[i])) by {
        assert(pending[i] == before[i]);
        assert(before[i] != before[pending.len() as int]);
        if pending[i].len() != 0 {
            lemma_listed_more(visited, dir, pending[i]);
        }
    }
    assert forall|i: int| 0 <= i < found.len() implies is_listed(
        visited_after,
        #[trigger] found[i],
    ) by {
        lemma_listed_more(visited, dir, found[i]);
    }
    assert forall|path: Seq<char>| #[trigger] visited_after.contains(path) implies path.len() == 0
        || is_listed(visited_after, path) by {
        if path == dir {
            if dir.len() != 0 {
                lemma_listed_more(visited, dir, dir);
            }
        } else if path.len() != 0 {
            lemma_listed_more(visited, dir, path);
        }
    }
}

/// The listing `entries` holds an entry of the name `name` and the kind
/// `kind`.
pub open spec fn holds_entry(entries: Seq<DirEntry>, name: Seq<char>, kind: EntryKind) -> bool {
    exists|i: int|
        #![trigger entries[i]]
        0 <= i < entries.len() && entries[i].name@ == name && entries[i].kind == kind
}

/// The listings `entries` and `others` hold entries of the same names and
/// kinds, in whatever order.
pub open spec fn same_entries(entries: Seq<DirEntry>, others: Seq<DirEntry>) -> bool {
    forall|name: Seq<char>, kind: EntryKind|
        #![trigger holds_entry(entries, name, kind)]
        #![trigger holds_entry(others, name, kind)]
        holds_entry(entries, name, kind) <==> holds_entry(others, name, kind)
}

/// `tree` and `other` are one tree, listed twice: they have the same
/// directories, and each directory has entries of the same names and kinds
/// in both, in whatever order.
pub open spec fn same_tree(
    tree: Map<Seq<char>, Seq<DirEntry>>,
    other: Map<Seq<char>, Seq<DirEntry>>,
) -> bool {
    &&& forall|dir: Seq<char>| tree.dom().contains(dir) <==> other.dom().contains(dir)
    &&& forall|dir: Seq<char>|
        tree.dom().contains(dir) ==> same_entries(#[trigger] tree[dir], other[dir])
}

/// If two are one tree, listed twice, so they are the other way round.
proof fn lemma_same_tree_symmetric(
    tree: Map<Seq<char>, Seq<DirEntry>>,
    other: Map<Seq<char>, Seq<DirEntry>>,
)
    requires
        same_tree(tree, other),
    ensures
        same_tree(other, tree),
{
    assert forall|dir: Seq<char>| other.dom().contains(dir) implies same_entries(
        #[trigger] other[dir],
        tree[dir],
    ) by {
        assert(tree.dom().contains(dir));
        assert(same_entries(tree[dir], other[dir]));
    }
}

/// What one listing of a tree lists, the other lists too.
proof fn lemma_same_tree_lists(
    tree: Map<Seq<char>, Seq<DirEntry>>,
    other: Map<Seq<char>, Seq<DirEntry>>,
    dir: Seq<char>,
    name: Seq<char>,
)
    requires
        same_tree(tree, other),
    ensures
        lists_directory(tree, dir, name) ==> lists_directory(other, dir, name),
        lists_file(tree, dir, name) ==> lists_file(other, dir, name),
{
    if tree.dom().contains(dir) {
        assert(same_entries(tree[dir], other[dir]));
        if lists_directory(tree, dir, name) {
            assert(holds_entry(tree[dir], name, EntryKind::Directory));
            assert(holds_entry(other[dir], name, EntryKind::Directory));
        }
        if lists_file(tree, dir, name) {
            assert(holds_entry(tree[dir], name, EntryKind::File));
            assert(holds_entry(other[dir], name, EntryKind::File));
        }
    }
}

/// A way down one listing of a tree is a way down the other.
proof fn lemma_same_tree_leads_down(
    tree: Map<Seq<char>, Seq<DirEntry>>,
    other: Map<Seq<char>, Seq<DirEntry>>,
    excluded: Set<Seq<char>>,
    names: Seq<Seq<char>>,
)
    requires
        same_tree(tree, other),
        leads_down(tree, excluded, names),
    ensures
        leads_down(other, excluded, names),
    decreases names.len(),
{
    if names.len() > 0 {
        lemma_same_tree_leads_down(tree, other, excluded, names.drop_last());
        lemma_same_tree_lists(tree, other, path_of(names.drop_last()), names.last());
    }
}

/// The source files of a tree that lie below no excluded directory do not
/// depend on the order in which its directories list their entries.
pub proof fn lemma_same_tree_same_sources(
    tree: Map<Seq<char>, Seq<DirEntry>>,
    other: Map<Seq<char>, Seq<DirEntry>>,
    excluded: Set<Seq<char>>,
    path: Seq<char>,
)
    requires
        same_tree(tree, other),
        is_open_source(tree, excluded, path),
    ensures
        is_open_source(other, excluded, path),
{
    let (names, name) = choose|names: Seq<Seq<char>>, name: Seq<char>|
        #![trigger child_path(path_of(names), name)]
        leads_down(tree, excluded, names) && lists_file(tree, path_of(names), name)
            && is_source_name(name) && path == child_path(path_of(names), name);
    lemma_same_tree_leads_down(tree, other, excluded, names);
    lemma_same_tree_lists(tree, other, path_of(names), name);
    assert(path == child_path(path_of(names), name));
}

/// Two walks of one tree with the same exclusions, each done, give the same
/// files in the same order, whatever the order in which the directories
/// listed their entries to the one and to the other, if no directory lists
/// a name twice.
pub proof fn lemma_walks_agree(
    tree: Map<Seq<char>, Seq<DirEntry>>,
    other: Map<Seq<char>, Seq<DirEntry>>,
    excluded: Set<Seq<char>>,
    visited: Set<Seq<char>>,
    found: Seq<Seq<char>>,
    files: Seq<Seq<char>>,
    other_visited: Set<Seq<char>>,
    other_found: Seq<Seq<char>>,
    other_files: Seq<Seq<char>>,
)
    requires
        same_tree(tree, other),
        walks(tree, excluded, Seq::empty(), found),
        walks(other, excluded, Seq::empty(), other_found),
        walks_once(visited, Seq::empty(), found),
        walks_once(other_visited, Seq::empty(), other_found),
        ascending(files),
        ascending(other_files),
        files.to_multiset() == found.to_multiset(),
        other_files.to_multiset() == other_found.to_multiset(),
    ensures
        files == other_files,
{
    broadcast use vstd::multiset::group_multiset_axioms;

    lemma_walk_ends(tree, excluded, found);
    lemma_walk_ends(other, excluded, other_found);
    found.lemma_multiset_has_no_duplicates();
    other_found.lemma_multiset_has_no_duplicates();
    assert forall|path: Seq<char>| found.to_multiset().count(path) == other_found.to_multiset().count(
        path,
    ) by {
        vstd::seq_lib::to_multiset_contains(found, path);
        vstd::seq_lib::to_multiset_contains(other_found, path);
        if is_open_source(tree, excluded, path) {
            lemma_same_tree_same_sources(tree, other, excluded, path);
        }
        if is_open_source(other, excluded, path) {
            lemma_same_tree_symmetric(tree, other);
            lemma_same_tree_same_sources(other, tree, excluded, path);
        }
    }
    assert(found.to_multiset() =~= other_found.to_multiset());
    lemma_ascending_unique(files, other_files);
}

/// No directory of `tree` lists a name twice.
pub open spec fn is_plain_tree(tree: Map<Seq<char>, Seq<DirEntry>>) -> bool {
    forall|dir: Seq<char>| tree.dom().contains(dir) ==> is_plain_listing(#[trigger] tree[dir])
}

/// Where a walk stands between two listings: the directories it has asked
/// for, those still to be listed, and the files found.
pub struct WalkState {
    pub visited: Set<Seq<char>>,
    pub pending: Seq<Seq<char>>,
    pub found: Seq<Seq<char>>,
}

/// Where the walk of `tree` stands after `steps` listings, when each listing
/// that it is handed is the one that `tree` has for the directory it asked
/// for. It begins as `Walk::new` says and goes on as `Walk::next` and
/// `Waiting::visit` say; once nothing is left to list it stays as it is.
pub open spec fn walked(
    tree: Map<Seq<char>, Seq<DirEntry>>,
    excluded: Set<Seq<char>>,
    steps: nat,
) -> WalkState
    decreases steps,
{
    if steps == 0 {
        WalkState { visited: Set::empty(), pending: seq![Seq::empty()], found: Seq::empty() }
    } else {
        let before = walked(tree, excluded, (steps - 1) as nat);
        if before.pending.len() == 0 {
            before
        } else {
            let dir = before.pending.last();
            let rest = before.pending.drop_last();
            if tree.dom().contains(dir) {
                WalkState {
                    visited: before.visited.insert(dir),
                    pending: rest + directories_to_visit(dir, tree[dir], excluded),
                    found: before.found + source_files(dir, tree[dir]),
                }
            } else {
                WalkState { visited: before.visited.insert(dir), pending: rest, found: before.found }
            }
        }
    }
}

/// The walk of a tree is as it should be after every listing, and if no
/// directory lists a name twice, it lists nothing twice and finds nothing
/// twice.
pub proof fn lemma_walked(
    tree: Map<Seq<char>, Seq<DirEntry>>,
    excluded: Set<Seq<char>>,
    steps: nat,
)
    ensures
        walks(
            tree,
            excluded,
            walked(tree, excluded, steps).pending,
            walked(tree, excluded, steps).found,
        ),
        is_plain_tree(tree) ==> walks_once(
            walked(tree, excluded, steps).visited,
            walked(tree, excluded, steps).pending,
            walked(tree, excluded, steps).found,
        ),
    decreases steps,
{
    if steps == 0 {
        lemma_walk_begins(tree, excluded);
        lemma_walk_begins_once();
    } else {
        let before = walked(tree, excluded, (steps - 1) as nat);
        lemma_walked(tree, excluded, (steps - 1) as nat);
        if before.pending.len() > 0 {
            let dir = before.pending.last();
            let rest = before.pending.drop_last();
            assert(rest.push(dir) == before.pending);
            if tree.dom().contains(dir) {
                lemma_walk_lists(tree, excluded, rest, before.found, dir);
                if is_plain_tree(tree) {
                    lemma_walk_lists_once(
                        excluded,
                        before.visited,
                        rest,
                        before.found,
                        dir,
                        tree[dir],
                    );
                }
            } else {
                lemma_walk_skips(tree, excluded, rest, before.found, dir);
                if is_plain_tree(tree) {
                    lemma_walk_skips_once(before.visited, rest, before.found, dir);
                }
            }
        }
    }
}

/// Finding the source files of one tree twice gives the same files in the
/// same order both times, even if the directories list their entries in
/// another order the second time: if both walks come to an end, and no
/// directory lists a name twice, the lists of files that come out are equal.
pub proof fn lemma_whole_walks_agree(
    tree: Map<Seq<char>, Seq<DirEntry>>,
    other: Map<Seq<char>, Seq<DirEntry>>,
    excluded: Set<Seq<char>>,
    steps: nat,
    other_steps: nat,
    files: Seq<Seq<char>>,
    other_files: Seq<Seq<char>>,
)
    requires
        same_tree(tree, other),
        is_plain_tree(tree),
        is_plain_tree(other),
        walked(tree, excluded, steps).pending.len() == 0,
        walked(other, excluded, other_steps).pending.len() == 0,
        ascending(files),
        ascending(other_files),
        files.to_multiset() == walked(tree, excluded, steps).found.to_multiset(),
        other_files.to_multiset() == walked(other, excluded, other_steps).found.to_multiset(),
    ensures
        files == other_files,
{
    let end = walked(tree, excluded, steps);
    let other_end = walked(other, excluded, other_steps);
    lemma_walked(tree, excluded, steps);
    lemma_walked(other, excluded, other_steps);
    assert(end.pending == Seq::<Seq<char>>::empty());
    assert(other_end.pending == Seq::<Seq<char>>::empty());
    lemma_walks_agree(
        tree,
        other,
        excluded,
        end.visited,
        end.found,
        files,
        other_end.visited,
        other_end.found,
        other_files,
    );
}

} // verus!
