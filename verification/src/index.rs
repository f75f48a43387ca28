//! Building the ordered, filtered index.
//!
//! The raw input is a mapping from file path to that file's diagnostics. For
//! one severity class, the index keeps, per file, exactly the diagnostics of
//! that class in their source order, drops every file left with none, and
//! orders the files by path ascending.

use vstd::prelude::*;

use itertools::Itertools;

use crate::model::{Diagnostic, FileGroup, Severity};

verus! {

/// Byte-wise lexicographic order on paths, `a <= b`: a proper prefix comes
/// first, otherwise the first differing byte decides. This is the order std
/// documents for byte slices.
pub open spec fn le_bytes(a: Seq<u8>, b: Seq<u8>) -> bool
    decreases a.len(),
{
    if a.len() == 0 {
        true
    } else if b.len() == 0 {
        false
    } else if a.first() < b.first() {
        true
    } else if a.first() > b.first() {
        false
    } else {
        le_bytes(a.drop_first(), b.drop_first())
    }
}

/// The diagnostics of one file that survive filtering to `severity`, in
/// source order.
pub open spec fn filter_severity(ds: Seq<Diagnostic>, severity: Severity) -> Seq<Diagnostic> {
    ds.filter(|d: Diagnostic| d.severity == severity)
}

/// Whether `g` is the filtered form of some file of the input mapping:
/// its path, with exactly the diagnostics of `severity` that the file has.
pub open spec fn group_from_input(
    g: FileGroup,
    inp: Seq<(Vec<u8>, Vec<Diagnostic>)>,
    severity: Severity,
) -> bool {
    exists|j: int|
        0 <= j < inp.len() && g.path@ == inp[j].0@ && g.diagnostics@ == filter_severity(
            inp[j].1@,
            severity,
        )
}

/// Whether some group of `gs` carries the path `p`.
pub open spec fn index_has_path(gs: Seq<FileGroup>, p: Seq<u8>) -> bool {
    exists|i: int| 0 <= i < gs.len() && gs[i].path@ == p
}

/// `group_from_input`, restricted to the first `j` files of the input.
spec fn group_from_prefix(
    g: FileGroup,
    inp: Seq<(Vec<u8>, Vec<Diagnostic>)>,
    j: int,
    severity: Severity,
) -> bool {
    exists|a: int|
        0 <= a < j <= inp.len() && g.path@ == inp[a].0@ && g.diagnostics@ == filter_severity(
            inp[a].1@,
            severity,
        )
}

/// Relies on `itertools::Itertools::sorted_by_key`, keyed by each group's
/// path: it hands back the same items, rearranged into ascending key order,
/// where `Vec<u8>` keys are compared by std's lexicographic byte order.
#[verifier::external_body]
fn sort_groups_by_path(v: Vec<FileGroup>) -> (r: Vec<FileGroup>)
    ensures
        r@.to_multiset() == v@.to_multiset(),
        forall|i: int, j: int| 0 <= i < j < r@.len() ==> le_bytes(r@[i].path@, r@[j].path@),
{
    v.into_iter().sorted_by_key(|g: &FileGroup| g.path.clone()).collect()
}

/// Keeps the diagnostics of `severity`, in source order, consuming the input.
fn filter_diagnostics(ds: Vec<Diagnostic>, severity: Severity) -> (r: Vec<Diagnostic>)
    ensures
        r@ == filter_severity(ds@, severity),
{
    let ghost all = ds@;
    let mut ds = ds;
    let mut kept: Vec<Diagnostic> = Vec::new();
    proof {
        reveal(Seq::filter);
        assert(all.take(0) =~= Seq::<Diagnostic>::empty());
        assert(all.skip(0) =~= all);
    }
    let ghost mut i: int = 0;
    while ds.len() > 0
        invariant
            0 <= i <= all.len(),
            ds@ =~= all.skip(i),
            kept@ == filter_severity(all.take(i), severity),
        decreases ds@.len(),
    {
        let d = ds.remove(0);
        proof {
            assert(all.skip(i)[0] == all[i]);
            assert(d == all[i]);
            assert(all.skip(i).remove(0) =~= all.skip(i + 1));
            assert(ds@ =~= all.skip(i + 1));
            reveal(Seq::filter);
            assert(all.take(i + 1).drop_last() =~= all.take(i));
            assert(all.take(i + 1).last() == all[i]);
        }
        if d.severity == severity {
            kept.push(d);
        }
        proof {
            i = i + 1;
        }
    }
    proof {
        assert(all.take(all.len() as int) =~= all);
    }
    kept
}

/// Builds the index: per file the diagnostics of `severity` in source order,
/// files left with none dropped, the rest ordered by path ascending.
///
/// The input is a mapping, so its paths are distinct; the result is then the
/// one strictly path-sorted sequence that keeps, for exactly the files with a
/// surviving diagnostic, exactly their surviving diagnostics. Every group in
/// the result is non-empty and holds only diagnostics of the requested class,
/// so a file with no match never appears. An empty input gives an empty index.
#[verifier::rlimit(50)]
pub fn build_index(input: Vec<(Vec<u8>, Vec<Diagnostic>)>, severity: Severity) -> (r: Vec<
    FileGroup,
>)
    requires
        forall|i: int, j: int| 0 <= i < j < input@.len() ==> input@[i].0@ != input@[j].0@,
    ensures
        // ordered by path, strictly: ascending, never repeating
        forall|i: int, j: int|
            0 <= i < j < r@.len() ==> le_bytes(#[trigger] r@[i].path@, #[trigger] r@[j].path@)
                && r@[i].path@ != r@[j].path@,
        // sound: every group is the filtered form of an input file
        forall|i: int| 0 <= i < r@.len() ==> group_from_input(#[trigger] r@[i], input@, severity),
        // complete: every input file with a surviving diagnostic appears
        forall|j: int|
            0 <= j < input@.len() && filter_severity(#[trigger] input@[j].1@, severity).len() > 0
                ==> index_has_path(r@, input@[j].0@),
        // never an empty group, and only the requested severity
        forall|i: int| 0 <= i < r@.len() ==> (#[trigger] r@[i]).diagnostics@.len() > 0,
        forall|i: int, k: int|
            0 <= i < r@.len() && 0 <= k < r@[i].diagnostics@.len()
                ==> (#[trigger] r@[i].diagnostics@[k]).severity == severity,
{
    let ghost inp = input@;
    let mut input = input;
    let mut groups: Vec<FileGroup> = Vec::new();
    proof {
        assert(inp.skip(0) =~= inp);
    }
    let ghost mut j: int = 0;
    while input.len() > 0
        invariant
            0 <= j <= inp.len(),
            input@ =~= inp.skip(j),
            forall|a: int, b: int| 0 <= a < b < inp.len() ==> inp[a].0@ != inp[b].0@,
            forall|i: int|
                0 <= i < groups@.len() ==> group_from_prefix(#[trigger] groups@[i], inp, j, severity),
            forall|a: int|
                0 <= a < j && filter_severity(#[trigger] inp[a].1@, severity).len() > 0
                    ==> index_has_path(groups@, inp[a].0@),
            forall|i: int| 0 <= i < groups@.len() ==> (#[trigger] groups@[i]).diagnostics@.len() > 0,
            forall|i: int, k: int|
                0 <= i < k < groups@.len()
                    ==> (#[trigger] groups@[i]).path@ != (#[trigger] groups@[k]).path@,
        decreases input@.len(),
    {
        let (path, ds) = input.remove(0);
        proof {
            assert(inp.skip(j)[0] == inp[j]);
            assert((path, ds) == inp[j]);
            assert(inp.skip(j).remove(0) =~= inp.skip(j + 1));
            assert(input@ =~= inp.skip(j + 1));
        }
        let kept = filter_diagnostics(ds, severity);
        let ghost before = groups@;
        if kept.len() > 0 {
            proof {
                // the new path cannot repeat one already present
                assert forall|i: int| 0 <= i < before.len() implies (#[trigger] before[i]).path@
                    != path@ by {
                    let a = choose|a: int|
                        0 <= a < j <= inp.len() && before[i].path@ == inp[a].0@
                            && before[i].diagnostics@ == filter_severity(inp[a].1@, severity);
                    assert(inp[a].0@ != inp[j].0@);
                }
            }
            let g = FileGroup { path, diagnostics: kept };
            groups.push(g);
            proof {
                assert(groups@ == before.push(g));
                assert(groups@[groups@.len() - 1] == g);
                assert(g.path@ == inp[j].0@);
                assert(g.diagnostics@ == filter_severity(inp[j].1@, severity));
                assert(group_from_prefix(g, inp, j + 1, severity));
            }
        } else {
            proof {
                assert(filter_severity(inp[j].1@, severity).len() == 0);
            }
        }
        proof {
            // re-establish the per-group facts over the possibly grown vector
            assert forall|i: int| 0 <= i < groups@.len() implies group_from_prefix(
                #[trigger] groups@[i],
                inp,
                j + 1,
                severity,
            ) && groups@[i].diagnostics@.len() > 0 by {
                if i < before.len() {
                    assert(groups@[i] == before[i]);
                    let a = choose|a: int|
                        0 <= a < j <= inp.len() && before[i].path@ == inp[a].0@
                            && before[i].diagnostics@ == filter_severity(inp[a].1@, severity);
                    assert(group_from_prefix(groups@[i], inp, j + 1, severity));
                }
            }
            assert forall|a: int|
                0 <= a < j + 1 && filter_severity(#[trigger] inp[a].1@, severity).len()
                    > 0 implies index_has_path(groups@, inp[a].0@) by {
                if a < j {
                    let i = choose|i: int| 0 <= i < before.len() && before[i].path@ == inp[a].0@;
                    assert(groups@[i] == before[i]);
                    assert(groups@[i].path@ == inp[a].0@);
                } else {
                    assert(groups@[groups@.len() - 1].path@ == inp[a].0@);
                }
            }
            j = j + 1;
        }
    }
    let r = sort_groups_by_path(groups);
    proof {
        assert(j == inp.len());
        lemma_sort_carries_groups(groups@, r@);
        broadcast use vstd::seq_lib::group_filter_ensures;

        assert forall|i: int| 0 <= i < r@.len() implies group_from_input(
            #[trigger] r@[i],
            inp,
            severity,
        ) && r@[i].diagnostics@.len() > 0 by {
            assert(groups@.contains(r@[i]));
            let k = choose|k: int| 0 <= k < groups@.len() && groups@[k] == r@[i];
            let a = choose|a: int|
                0 <= a < j <= inp.len() && groups@[k].path@ == inp[a].0@ && groups@[k].diagnostics@
                    == filter_severity(inp[a].1@, severity);
            assert(group_from_input(r@[i], inp, severity));
        }
        assert forall|a: int|
            0 <= a < inp.len() && filter_severity(#[trigger] inp[a].1@, severity).len()
                > 0 implies index_has_path(r@, inp[a].0@) by {
            let k = choose|k: int| 0 <= k < groups@.len() && groups@[k].path@ == inp[a].0@;
            assert(r@.contains(groups@[k]));
            let i = choose|i: int| 0 <= i < r@.len() && r@[i] == groups@[k];
            assert(r@[i].path@ == inp[a].0@);
        }
        assert forall|i: int, k: int|
            0 <= i < r@.len() && 0 <= k < r@[i].diagnostics@.len() implies (#[trigger] r@[i].diagnostics@[k]).severity == severity by {
            let a = choose|a: int|
                0 <= a < inp.len() && r@[i].path@ == inp[a].0@ && r@[i].diagnostics@
                    == filter_severity(inp[a].1@, severity);
            assert(r@[i].diagnostics@[k] == filter_severity(inp[a].1@, severity)[k]);
        }
    }
    r
}

/// Carries the per-group facts across the trusted sort: with equal multisets,
/// every element of one side occurs in the other, and distinct paths stay
/// distinct.
proof fn lemma_sort_carries_groups(v: Seq<FileGroup>, r: Seq<FileGroup>)
    requires
        r.to_multiset() == v.to_multiset(),
        forall|i: int, k: int|
            0 <= i < k < v.len() ==> (#[trigger] v[i]).path@ != (#[trigger] v[k]).path@,
    ensures
        forall|i: int| 0 <= i < r.len() ==> v.contains(#[trigger] r[i]),
        forall|k: int| 0 <= k < v.len() ==> r.contains(#[trigger] v[k]),
        forall|i: int, k: int|
            0 <= i < k < r.len() ==> (#[trigger] r[i]).path@ != (#[trigger] r[k]).path@,
{
    broadcast use vstd::seq_lib::group_to_multiset_ensures;

    assert forall|i: int| 0 <= i < r.len() implies v.contains(#[trigger] r[i]) by {
        assert(r.contains(r[i]));
        assert(r.to_multiset().count(r[i]) > 0);
        assert(v.to_multiset().count(r[i]) > 0);
    }
    assert forall|k: int| 0 <= k < v.len() implies r.contains(#[trigger] v[k]) by {
        assert(v.contains(v[k]));
        assert(v.to_multiset().count(v[k]) > 0);
        assert(r.to_multiset().count(v[k]) > 0);
    }
    // distinct paths make distinct values, so v has no duplicates and every
    // count in the shared multiset is at most one
    assert(v.no_duplicates());
    v.lemma_multiset_has_no_duplicates();
    r.lemma_multiset_has_no_duplicates_conv();
    assert forall|i: int, k: int| 0 <= i < k < r.len() implies (#[trigger] r[i]).path@ != (
    #[trigger] r[k]).path@ by {
        if r[i].path@ == r[k].path@ {
            let a = choose|a: int| 0 <= a < v.len() && v[a] == r[i];
            let b = choose|b: int| 0 <= b < v.len() && v[b] == r[k];
            // two positions of v with the same path hold the same value
            assert(v[a].path@ == v[b].path@);
            assert(a == b);
            // so r would repeat one value, against no_duplicates
            assert(r[i] == r[k]);
        }
    }
}

} // verus!
