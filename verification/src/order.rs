//! The order of paths: name by name, a path before the longer ones that
//! begin with its names, and each name character by character.

use crate::discovery::segments;
use crate::text::lemma_split_first;
use vstd::prelude::*;
use vstd::relations::{sorted_by, total_ordering};
use vstd::std_specs::iter::IteratorSpec;

verus! {

/// The name `a` comes before the name `b`, or is `b`: at the first place
/// where they differ, `a` has the smaller character, or `a` ends there.
pub open spec fn name_precedes(a: Seq<char>, b: Seq<char>) -> bool
    decreases a.len(),
{
    if a.len() == 0 {
        true
    } else if b.len() == 0 {
        false
    } else if a[0] != b[0] {
        a[0] < b[0]
    } else {
        name_precedes(a.skip(1), b.skip(1))
    }
}

/// The names `a` come before the names `b`, or are `b`: at the first place
/// where they differ, `a` has the name that comes first, or `a` ends there.
pub open spec fn names_precede(a: Seq<Seq<char>>, b: Seq<Seq<char>>) -> bool
    decreases a.len(),
{
    if a.len() == 0 {
        true
    } else if b.len() == 0 {
        false
    } else if a[0] != b[0] {
        name_precedes(a[0], b[0])
    } else {
        names_precede(a.skip(1), b.skip(1))
    }
}

/// The path `a` comes before the path `b`, or is `b`. Paths are compared
/// name by name, not character by character: a directory comes before all
/// that lies in it, and all that lies in it comes before whatever else has a
/// name that begins with the name of the directory.
pub open spec fn precedes(a: Seq<char>, b: Seq<char>) -> bool {
    names_precede(segments(a), segments(b))
}

/// The paths of `paths` stand in ascending order.
pub open spec fn ascending(paths: Seq<Seq<char>>) -> bool {
    forall|i: int, j: int|
        0 <= i < j < paths.len() ==> precedes(#[trigger] paths[i], #[trigger] paths[j])
}

/// The order of paths as it shows when two paths are read together: at the
/// first place where they differ, `a` ends, or has a `/` where `b` has none,
/// or has the smaller of two characters that are no `/`.
pub open spec fn reads_before(a: Seq<char>, b: Seq<char>) -> bool
    decreases a.len(),
{
    if a.len() == 0 {
        true
    } else if b.len() == 0 {
        false
    } else if a[0] != b[0] {
        a[0] == '/' || (b[0] != '/' && a[0] < b[0])
    } else {
        reads_before(a.skip(1), b.skip(1))
    }
}

/// Paths come one before the other as reading them together shows.
pub proof fn lemma_precedes_reads(a: Seq<char>, b: Seq<char>)
    ensures
        precedes(a, b) == reads_before(a, b),
    decreases a.len(),
{
    let none = Seq::<char>::empty();
    let names = segments(a);
    let others = segments(b);
    if a.len() == 0 {
        assert(names == seq![none]);
        if b.len() > 0 {
            lemma_split_first(b, '/');
        } else {
            assert(others == seq![none]);
        }
        assert(names.skip(1).len() == 0);
        assert(names_precede(names.skip(1), others.skip(1)));
    } else if b.len() == 0 {
        lemma_split_first(a, '/');
        assert(others == seq![none]);
        assert(others.skip(1).len() == 0);
        if a[0] == '/' {
            assert(names.skip(1) == segments(a.skip(1)));
            assert(!names_precede(names.skip(1), others.skip(1)));
        } else {
            assert(names[0][0] == a[0]);
        }
    } else {
        lemma_split_first(a, '/');
        lemma_split_first(b, '/');
        let tail = segments(a.skip(1));
        let other_tail = segments(b.skip(1));
        lemma_precedes_reads(a.skip(1), b.skip(1));
        if a[0] == '/' {
            assert(names[0] == none);
            assert(names.skip(1) == tail);
        } else {
            assert(names[0] == seq![a[0]] + tail[0]);
            assert(names[0][0] == a[0]);
            assert(names[0].skip(1) == tail[0]);
            assert(names.skip(1) == tail.skip(1));
        }
        if b[0] == '/' {
            assert(others[0] == none);
            assert(others.skip(1) == other_tail);
        } else {
            assert(others[0] == seq![b[0]] + other_tail[0]);
            assert(others[0][0] == b[0]);
            assert(others[0].skip(1) == other_tail[0]);
            assert(others.skip(1) == other_tail.skip(1));
        }
        if a[0] == b[0] && a[0] != '/' {
            if tail[0] == other_tail[0] {
                assert(names[0] == others[0]);
            } else {
                assert(names[0] != others[0]);
            }
        }
    }
}

/// Every path reads before itself.
proof fn lemma_reads_reflexive(a: Seq<char>)
    ensures
        reads_before(a, a),
    decreases a.len(),
{
    if a.len() > 0 {
        lemma_reads_reflexive(a.skip(1));
    }
}

/// Two paths of which each reads before the other are one path.
proof fn lemma_reads_antisymmetric(a: Seq<char>, b: Seq<char>)
    requires
        reads_before(a, b),
        reads_before(b, a),
    ensures
        a == b,
    decreases a.len(),
{
    if a.len() > 0 {
        lemma_reads_antisymmetric(a.skip(1), b.skip(1));
        assert(a == seq![a[0]] + a.skip(1));
        assert(b == seq![b[0]] + b.skip(1));
    } else {
        assert(a == b);
    }
}

/// What reads before a path reads before all that the path reads before.
proof fn lemma_reads_transitive(a: Seq<char>, b: Seq<char>, c: Seq<char>)
    requires
        reads_before(a, b),
        reads_before(b, c),
    ensures
        reads_before(a, c),
    decreases a.len(),
{
    if a.len() > 0 && a[0] == b[0] && b[0] == c[0] {
        lemma_reads_transitive(a.skip(1), b.skip(1), c.skip(1));
    }
}

/// Of two paths one reads before the other.
proof fn lemma_reads_total(a: Seq<char>, b: Seq<char>)
    ensures
        reads_before(a, b) || reads_before(b, a),
    decreases a.len(),
{
    if a.len() > 0 && b.len() > 0 && a[0] == b[0] {
        lemma_reads_total(a.skip(1), b.skip(1));
    }
}

/// Every path comes before itself or is itself.
pub proof fn lemma_precedes_reflexive(a: Seq<char>)
    ensures
        precedes(a, a),
{
    lemma_precedes_reads(a, a);
    lemma_reads_reflexive(a);
}

/// Two paths of which each comes before the other are one path.
pub proof fn lemma_precedes_antisymmetric(a: Seq<char>, b: Seq<char>)
    requires
        precedes(a, b),
        precedes(b, a),
    ensures
        a == b,
{
    lemma_precedes_reads(a, b);
    lemma_precedes_reads(b, a);
    lemma_reads_antisymmetric(a, b);
}

/// What comes before a path comes before all that the path comes before.
pub proof fn lemma_precedes_transitive(a: Seq<char>, b: Seq<char>, c: Seq<char>)
    requires
        precedes(a, b),
        precedes(b, c),
    ensures
        precedes(a, c),
{
    lemma_precedes_reads(a, b);
    lemma_precedes_reads(b, c);
    lemma_precedes_reads(a, c);
    lemma_reads_transitive(a, b, c);
}

/// Of two paths one comes before the other.
pub proof fn lemma_precedes_total(a: Seq<char>, b: Seq<char>)
    ensures
        precedes(a, b) || precedes(b, a),
{
    lemma_precedes_reads(a, b);
    lemma_precedes_reads(b, a);
    lemma_reads_total(a, b);
}

/// The order of paths is a total order.
pub proof fn lemma_precedes_total_order()
    ensures
        total_ordering(|a: Seq<char>, b: Seq<char>| precedes(a, b)),
{
    let leq = |a: Seq<char>, b: Seq<char>| precedes(a, b);
    assert forall|a: Seq<char>| #[trigger] leq(a, a) by {
        lemma_precedes_reflexive(a);
    }
    assert forall|a: Seq<char>, b: Seq<char>| #[trigger] leq(a, b) && #[trigger] leq(b, a) implies a
        == b by {
        lemma_precedes_antisymmetric(a, b);
    }
    assert forall|a: Seq<char>, b: Seq<char>, c: Seq<char>| #[trigger]
        leq(a, b) && #[trigger] leq(b, c) implies leq(a, c) by {
        lemma_precedes_transitive(a, b, c);
    }
    assert forall|a: Seq<char>, b: Seq<char>| #[trigger] leq(a, b) || #[trigger] leq(b, a) by {
        lemma_precedes_total(a, b);
    }
}

/// There is one ascending order of given paths: two ascending lists that
/// hold the same paths, each as often as the other, are the same list.
pub proof fn lemma_ascending_unique(a: Seq<Seq<char>>, b: Seq<Seq<char>>)
    requires
        ascending(a),
        ascending(b),
        a.to_multiset() == b.to_multiset(),
    ensures
        a == b,
{
    let leq = |x: Seq<char>, y: Seq<char>| precedes(x, y);
    lemma_precedes_total_order();
    assert(sorted_by(a, leq));
    assert(sorted_by(b, leq));
    vstd::seq_lib::lemma_sorted_unique(a, b, leq);
}

/// Tells whether `a` comes before `b` or is `b`.
pub fn comes_before(a: &str, b: &str) -> (before: bool)
    ensures
        before == precedes(a@, b@),
{
    broadcast use vstd::string::group_string_axioms;

    let mut left = a.chars();
    let mut right = b.chars();
    proof {
        lemma_precedes_reads(a@, b@);
    }
    loop
        invariant
            left.obeys_prophetic_iter_laws(),
            right.obeys_prophetic_iter_laws(),
            left.decrease() is Some,
            reads_before(left.remaining(), right.remaining()) == precedes(a@, b@),
        decreases left.decrease()->0,
    {
        let ghost left_before = left.remaining();
        let ghost right_before = right.remaining();
        match left.next() {
            None => {
                return true;
            },
            Some(c) => {
                match right.next() {
                    None => {
                        return false;
                    },
                    Some(d) => {
                        if c != d {
                            return c == '/' || (d != '/' && c < d);
                        }
                        proof {
                            assert(left.remaining() == left_before.skip(1));
                            assert(right.remaining() == right_before.skip(1));
                        }
                    },
                }
            },
        }
    }
}

/// Puts `path` into the ascending list `sorted`, at its place.
fn insert_path(sorted: &mut Vec<String>, path: String)
    requires
        ascending(old(sorted).deep_view()),
    ensures
        ascending(final(sorted).deep_view()),
        final(sorted).deep_view().to_multiset() == old(sorted).deep_view().to_multiset().insert(
            path@,
        ),
{
    let ghost before = sorted.deep_view();
    let mut low: usize = 0;
    let mut high: usize = sorted.len();
    while low < high
        invariant
            low <= high <= sorted.len(),
            sorted.deep_view() == before,
            ascending(before),
            forall|j: int| 0 <= j < low ==> precedes(#[trigger] before[j], path@),
            forall|j: int| high <= j < before.len() ==> !precedes(#[trigger] before[j], path@),
        decreases high - low,
    {
        let middle = low + (high - low) / 2;
        if comes_before(sorted[middle].as_str(), path.as_str()) {
            proof {
                assert forall|j: int| 0 <= j < middle + 1 implies precedes(
                    #[trigger] before[j],
                    path@,
                ) by {
                    if j < middle {
                        lemma_precedes_transitive(before[j], before[middle as int], path@);
                    }
                }
            }
            low = middle + 1;
        } else {
            proof {
                assert forall|j: int| middle <= j < before.len() implies !precedes(
                    #[trigger] before[j],
                    path@,
                ) by {
                    if j > middle && precedes(before[j], path@) {
                        lemma_precedes_transitive(before[middle as int], before[j], path@);
                    }
                }
            }
            high = middle;
        }
    }
    let k = low;
    sorted.insert(k, path);
    proof {
        let after = sorted.deep_view();
        assert(after == before.insert(k as int, path@));
        before.insert_ensures(k as int, path@);
        vstd::seq_lib::to_multiset_insert(before, k as int, path@);
        assert forall|i: int, j: int| 0 <= i < j < after.len() implies precedes(
            #[trigger] after[i],
            #[trigger] after[j],
        ) by {
            let x = if i < k {
                before[i]
            } else if i == k {
                path@
            } else {
                before[i - 1]
            };
            let y = if j < k {
                before[j]
            } else if j == k {
                path@
            } else {
                before[j - 1]
            };
            assert(after[i] == x);
            assert(after[j] == y);
            if i == k {
                lemma_precedes_total(before[j - 1], path@);
            }
        }
    }
}

/// A list of no paths holds no path.
proof fn lemma_no_paths(paths: Seq<Seq<char>>)
    requires
        paths.len() == 0,
    ensures
        paths.to_multiset() == vstd::multiset::Multiset::<Seq<char>>::empty(),
{
    broadcast use vstd::seq_lib::group_to_multiset_ensures;
    broadcast use vstd::multiset::group_multiset_axioms;

    assert(paths.to_multiset() =~= vstd::multiset::Multiset::<Seq<char>>::empty());
}

/// Puts `paths` in ascending order.
pub fn sort_paths(paths: Vec<String>) -> (sorted: Vec<String>)
    ensures
        ascending(sorted.deep_view()),
        sorted.deep_view().to_multiset() == paths.deep_view().to_multiset(),
{
    let ghost all = paths.deep_view();
    let mut rest = paths;
    let mut sorted: Vec<String> = Vec::new();
    proof {
        lemma_no_paths(sorted.deep_view());
        assert(sorted.deep_view().to_multiset().add(rest.deep_view().to_multiset())
            =~= all.to_multiset());
    }
    loop
        invariant
            ascending(sorted.deep_view()),
            sorted.deep_view().to_multiset().add(rest.deep_view().to_multiset())
                == all.to_multiset(),
        ensures
            ascending(sorted.deep_view()),
            sorted.deep_view().to_multiset() == all.to_multiset(),
        decreases rest.len(),
    {
        let ghost left = rest.deep_view();
        let ghost placed = sorted.deep_view();
        match rest.pop() {
            Some(path) => {
                proof {
                    assert(rest.deep_view() == left.drop_last());
                    assert(left == left.drop_last().push(path@));
                    vstd::seq_lib::to_multiset_build(left.drop_last(), path@);
                }
                insert_path(&mut sorted, path);
                proof {
                    assert(placed.to_multiset().insert(path@).add(left.drop_last().to_multiset())
                        =~= placed.to_multiset().add(
                        left.drop_last().to_multiset().insert(path@),
                    ));
                }
            },
            None => {
                proof {
                    lemma_no_paths(left);
                    assert(placed.to_multiset().add(left.to_multiset()) =~= placed.to_multiset());
                }
                break ;
            },
        }
    }
    sorted
}

} // verus!
