//! The one place where row spans are computed.
//!
//! Every item of the panel occupies a contiguous run of flattened rows:
//!
//! * a related location: one header row plus one row per message line;
//! * a diagnostic: one row per message line plus the rows of its related
//!   locations;
//! * a file: one header row, and, unless collapsed, the rows of its
//!   diagnostics.
//!
//! Sizing, painting and hit-testing all consume these functions; none of them
//! re-derives a count of its own.

use vstd::prelude::*;

use crate::model::{CollapseState, Diagnostic, FileGroup, RelatedInfo};

verus! {

/// Rows occupied by one related location: its header row plus its message rows.
pub open spec fn related_span(r: RelatedInfo) -> nat {
    r.message@.len() + 1
}

/// Rows occupied by a run of related locations.
pub open spec fn related_total(rs: Seq<RelatedInfo>) -> nat
    decreases rs.len(),
{
    if rs.len() == 0 {
        0
    } else {
        related_span(rs.first()) + related_total(rs.drop_first())
    }
}

/// Rows occupied by one diagnostic: its message rows plus all its related
/// locations.
pub open spec fn diag_span(d: Diagnostic) -> nat {
    d.message@.len() + related_total(d.related@)
}

/// Rows occupied by a run of diagnostics.
pub open spec fn diags_total(ds: Seq<Diagnostic>) -> nat
    decreases ds.len(),
{
    if ds.len() == 0 {
        0
    } else {
        diag_span(ds.first()) + diags_total(ds.drop_first())
    }
}

/// Rows occupied by one file: only its header row when collapsed, otherwise
/// the header row plus all its diagnostics.
pub open spec fn file_span(f: FileGroup, collapsed: bool) -> nat {
    if collapsed {
        1
    } else {
        1 + diags_total(f.diagnostics@)
    }
}

/// Rows occupied by a run of files under the given collapse flags.
pub open spec fn index_total(gs: Seq<FileGroup>, cs: CollapseState) -> nat
    decreases gs.len(),
{
    if gs.len() == 0 {
        0
    } else {
        file_span(gs.first(), cs.is_collapsed(gs.first().path@)) + index_total(
            gs.drop_first(),
            cs,
        )
    }
}

/// A run of related locations splits at any point into its first `i` entries
/// and the rest.
pub proof fn lemma_related_total_split(rs: Seq<RelatedInfo>, i: int)
    requires
        0 <= i <= rs.len(),
    ensures
        related_total(rs) == related_total(rs.take(i)) + related_total(rs.skip(i)),
    decreases i,
{
    if i == 0 {
        assert(rs.take(0) =~= Seq::<RelatedInfo>::empty());
        assert(rs.skip(0) =~= rs);
    } else {
        lemma_related_total_split(rs.drop_first(), i - 1);
        assert(rs.take(i).first() == rs.first());
        assert(rs.take(i).drop_first() =~= rs.drop_first().take(i - 1));
        assert(rs.skip(i) =~= rs.drop_first().skip(i - 1));
    }
}

/// A run of diagnostics splits at any point into its first `i` entries and
/// the rest.
pub proof fn lemma_diags_total_split(ds: Seq<Diagnostic>, i: int)
    requires
        0 <= i <= ds.len(),
    ensures
        diags_total(ds) == diags_total(ds.take(i)) + diags_total(ds.skip(i)),
    decreases i,
{
    if i == 0 {
        assert(ds.take(0) =~= Seq::<Diagnostic>::empty());
        assert(ds.skip(0) =~= ds);
    } else {
        lemma_diags_total_split(ds.drop_first(), i - 1);
        assert(ds.take(i).first() == ds.first());
        assert(ds.take(i).drop_first() =~= ds.drop_first().take(i - 1));
        assert(ds.skip(i) =~= ds.drop_first().skip(i - 1));
    }
}

/// A run of files splits at any point into its first `i` entries and the rest.
pub proof fn lemma_index_total_split(gs: Seq<FileGroup>, cs: CollapseState, i: int)
    requires
        0 <= i <= gs.len(),
    ensures
        index_total(gs, cs) == index_total(gs.take(i), cs) + index_total(gs.skip(i), cs),
    decreases i,
{
    if i == 0 {
        assert(gs.take(0) =~= Seq::<FileGroup>::empty());
        assert(gs.skip(0) =~= gs);
    } else {
        lemma_index_total_split(gs.drop_first(), cs, i - 1);
        assert(gs.take(i).first() == gs.first());
        assert(gs.take(i).drop_first() =~= gs.drop_first().take(i - 1));
        assert(gs.skip(i) =~= gs.drop_first().skip(i - 1));
    }
}

/// Appending one entry to a prefix of related locations adds its span.
pub proof fn lemma_related_total_take_succ(rs: Seq<RelatedInfo>, i: int)
    requires
        0 <= i < rs.len(),
    ensures
        related_total(rs.take(i + 1)) == related_total(rs.take(i)) + related_span(rs[i]),
{
    lemma_related_total_split(rs.take(i + 1), i);
    assert(rs.take(i + 1).take(i) =~= rs.take(i));
    let tail = rs.take(i + 1).skip(i);
    assert(tail.len() == 1 && tail.first() == rs[i]);
    assert(tail.drop_first() =~= Seq::<RelatedInfo>::empty());
    assert(related_total(tail.drop_first()) == 0);
    assert(related_total(tail) == related_span(rs[i]));
}

/// Appending one diagnostic to a prefix adds its span.
pub proof fn lemma_diags_total_take_succ(ds: Seq<Diagnostic>, i: int)
    requires
        0 <= i < ds.len(),
    ensures
        diags_total(ds.take(i + 1)) == diags_total(ds.take(i)) + diag_span(ds[i]),
{
    lemma_diags_total_split(ds.take(i + 1), i);
    assert(ds.take(i + 1).take(i) =~= ds.take(i));
    let tail = ds.take(i + 1).skip(i);
    assert(tail.len() == 1 && tail.first() == ds[i]);
    assert(tail.drop_first() =~= Seq::<Diagnostic>::empty());
    assert(diags_total(tail.drop_first()) == 0);
    assert(diags_total(tail) == diag_span(ds[i]));
}

/// Appending one file to a prefix adds its span.
pub proof fn lemma_index_total_take_succ(gs: Seq<FileGroup>, cs: CollapseState, i: int)
    requires
        0 <= i < gs.len(),
    ensures
        index_total(gs.take(i + 1), cs) == index_total(gs.take(i), cs) + file_span(
            gs[i],
            cs.is_collapsed(gs[i].path@),
        ),
{
    lemma_index_total_split(gs.take(i + 1), cs, i);
    assert(gs.take(i + 1).take(i) =~= gs.take(i));
    let tail = gs.take(i + 1).skip(i);
    assert(tail.len() == 1 && tail.first() == gs[i]);
    assert(tail.drop_first() =~= Seq::<FileGroup>::empty());
    assert(index_total(tail.drop_first(), cs) == 0);
    assert(index_total(tail, cs) == file_span(gs[i], cs.is_collapsed(gs[i].path@)));
}

/// Rows occupied by one related location.
pub fn related_span_rows(r: &RelatedInfo) -> (n: usize)
    requires
        related_span(*r) <= usize::MAX,
    ensures
        n == related_span(*r),
{
    r.message.len() + 1
}

/// Rows occupied by one diagnostic.
pub fn diag_span_rows(d: &Diagnostic) -> (n: usize)
    requires
        diag_span(*d) <= usize::MAX,
    ensures
        n == diag_span(*d),
{
    let mut n: usize = d.message.len();
    let mut i: usize = 0;
    while i < d.related.len()
        invariant
            0 <= i <= d.related@.len(),
            n == d.message@.len() + related_total(d.related@.take(i as int)),
            diag_span(*d) <= usize::MAX,
        decreases d.related@.len() - i,
    {
        proof {
            lemma_related_total_take_succ(d.related@, i as int);
            lemma_related_total_split(d.related@, i + 1);
            assert(d.related@.take(d.related@.len() as int) =~= d.related@);
        }
        n = n + related_span_rows(&d.related[i]);
        i = i + 1;
    }
    proof {
        assert(d.related@.take(d.related@.len() as int) =~= d.related@);
    }
    n
}

/// Rows occupied by one file under the given collapse flags.
pub fn file_span_rows(f: &FileGroup, cs: &CollapseState) -> (n: usize)
    requires
        file_span(*f, cs.is_collapsed(f.path@)) <= usize::MAX,
    ensures
        n == file_span(*f, cs.is_collapsed(f.path@)),
{
    if cs.check_collapsed(&f.path) {
        return 1;
    }
    let mut n: usize = 1;
    let mut i: usize = 0;
    while i < f.diagnostics.len()
        invariant
            0 <= i <= f.diagnostics@.len(),
            n == 1 + diags_total(f.diagnostics@.take(i as int)),
            1 + diags_total(f.diagnostics@) <= usize::MAX,
        decreases f.diagnostics@.len() - i,
    {
        proof {
            lemma_diags_total_take_succ(f.diagnostics@, i as int);
            lemma_diags_total_split(f.diagnostics@, i + 1);
            assert(f.diagnostics@.take(f.diagnostics@.len() as int) =~= f.diagnostics@);
        }
        n = n + diag_span_rows(&f.diagnostics[i]);
        i = i + 1;
    }
    proof {
        assert(f.diagnostics@.take(f.diagnostics@.len() as int) =~= f.diagnostics@);
    }
    n
}

/// The total is deterministic: it depends on the collapse flags only through
/// the flags of the listed files, never on anything else in the state.
pub proof fn lemma_index_total_deterministic(
    gs: Seq<FileGroup>,
    cs1: CollapseState,
    cs2: CollapseState,
)
    requires
        forall|i: int|
            0 <= i < gs.len() ==> cs1.is_collapsed(#[trigger] gs[i].path@) == cs2.is_collapsed(
                gs[i].path@,
            ),
    ensures
        index_total(gs, cs1) == index_total(gs, cs2),
    decreases gs.len(),
{
    if gs.len() > 0 {
        assert(gs[0] == gs.first());
        lemma_index_total_deterministic(gs.drop_first(), cs1, cs2);
        assert(forall|i: int|
            0 <= i < gs.drop_first().len() ==> gs.drop_first()[i] == gs[i + 1]);
    }
}

/// Collapsing one file replaces its contribution to the total with exactly
/// one row, whatever the size of its subtree; expanding it again restores the
/// original contribution. `cs_exp` and `cs_col` agree everywhere but at the
/// path of the file at `k`, which is expanded in the first and collapsed in
/// the second; the equality reads in both directions.
pub proof fn lemma_collapse_toggle(
    gs: Seq<FileGroup>,
    cs_exp: CollapseState,
    cs_col: CollapseState,
    k: int,
)
    requires
        0 <= k < gs.len(),
        !cs_exp.is_collapsed(gs[k].path@),
        cs_col.is_collapsed(gs[k].path@),
        forall|q: Seq<u8>| q != gs[k].path@ ==> cs_exp.is_collapsed(q) == cs_col.is_collapsed(q),
        forall|i: int, j: int| 0 <= i < j < gs.len() ==> gs[i].path@ != gs[j].path@,
    ensures
        index_total(gs, cs_col) + file_span(gs[k], false) == index_total(gs, cs_exp) + 1,
{
    lemma_index_total_split(gs, cs_exp, k);
    lemma_index_total_split(gs, cs_col, k);
    lemma_index_total_take_succ(gs, cs_exp, k);
    lemma_index_total_take_succ(gs, cs_col, k);
    lemma_index_total_split(gs.take(k + 1), cs_exp, k);
    lemma_index_total_split(gs.take(k + 1), cs_col, k);
    // the prefix before k and the suffix after k contribute the same under
    // both states, since their paths differ from the toggled one
    lemma_index_total_deterministic(gs.take(k), cs_exp, cs_col);
    assert(gs.skip(k + 1) =~= gs.skip(k).drop_first());
    assert(index_total(gs.skip(k), cs_exp) == file_span(gs[k], false) + index_total(
        gs.skip(k + 1),
        cs_exp,
    ));
    assert(index_total(gs.skip(k), cs_col) == 1 + index_total(gs.skip(k + 1), cs_col));
    lemma_index_total_deterministic(gs.skip(k + 1), cs_exp, cs_col);
}

} // verus!
