//! Resolving a clicked row to a semantic action.
//!
//! The walk consumes spans exactly as the sizer sums them: files above the
//! click are skipped whole, then the diagnostics of the containing file, then
//! its related locations. A click on a file's header row asks to toggle that
//! file; a click inside a diagnostic's message rows jumps to the diagnostic's
//! own range; a click inside a related block jumps to the related location.
//! Anything that cannot be matched resolves to a no-op, never a failure.

use vstd::prelude::*;

use crate::model::{bytes_copy, CollapseState, Diagnostic, FileGroup, Position, RelatedInfo};
use crate::span::{
    diag_span, diag_span_rows, diags_total, file_span, file_span_rows, index_total,
    lemma_diags_total_split, lemma_diags_total_take_succ, lemma_index_total_split,
    lemma_index_total_take_succ, lemma_related_total_split, lemma_related_total_take_succ,
    related_span, related_span_rows, related_total,
};

verus! {

/// Why a click resolved to nothing. None of these is a failure of the caller;
/// they are logged and absorbed.
#[derive(Clone, Copy, PartialEq, Eq, Structural, Debug)]
pub enum NoTargetReason {
    /// The click lies below the last row of the panel.
    PastEnd,
    /// The click lies inside a collapsed file, which shows only its header.
    CollapsedInterior,
    /// The click hit a related location whose target has no usable path.
    UnresolvedTarget,
}

/// The one semantic action a click resolves to.
#[derive(PartialEq, Eq, Debug)]
pub enum HitResult {
    /// Ask the owner of the collapse flags to toggle this file.
    ToggleCollapse { path: Vec<u8> },
    /// Jump to this position of this file.
    JumpToLocation { path: Vec<u8>, position: Position },
    /// Nothing to do.
    NoTarget { reason: NoTargetReason },
}

/// Ghost form of a hit, with the paths as byte sequences.
pub enum HitModel {
    Toggle { path: Seq<u8> },
    Jump { path: Seq<u8>, position: Position },
    Miss { reason: NoTargetReason },
}

/// The ghost value a `HitResult` stands for.
pub open spec fn hit_view(h: HitResult) -> HitModel {
    match h {
        HitResult::ToggleCollapse { path } => HitModel::Toggle { path: path@ },
        HitResult::JumpToLocation { path, position } => HitModel::Jump {
            path: path@,
            position,
        },
        HitResult::NoTarget { reason } => HitModel::Miss { reason },
    }
}

/// Walk of the related locations of one diagnostic, starting at row `cur`.
pub open spec fn hit_related(rs: Seq<RelatedInfo>, cur: nat, click: nat) -> HitModel
    decreases rs.len(),
{
    if rs.len() == 0 {
        HitModel::Miss { reason: NoTargetReason::PastEnd }
    } else if click >= cur + related_span(rs.first()) {
        hit_related(rs.drop_first(), cur + related_span(rs.first()), click)
    } else {
        match rs.first().path {
            Some(p) => HitModel::Jump { path: p@, position: rs.first().position },
            None => HitModel::Miss { reason: NoTargetReason::UnresolvedTarget },
        }
    }
}

/// Walk of the diagnostics of the file at `path`, whose first diagnostic row
/// is `cur`. A click inside a diagnostic's message rows jumps to the
/// diagnostic; one further down is resolved among its related locations.
pub open spec fn hit_diags(path: Seq<u8>, ds: Seq<Diagnostic>, cur: nat, click: nat) -> HitModel
    decreases ds.len(),
{
    if ds.len() == 0 {
        HitModel::Miss { reason: NoTargetReason::PastEnd }
    } else if click >= cur + diag_span(ds.first()) {
        hit_diags(path, ds.drop_first(), cur + diag_span(ds.first()), click)
    } else if click < cur + ds.first().message@.len() {
        HitModel::Jump { path, position: ds.first().start }
    } else {
        hit_related(ds.first().related@, cur + ds.first().message@.len(), click)
    }
}

/// Walk of the files, starting at row `cur`: the file containing the click
/// decides. Its header row toggles it; inside a collapsed file nothing else
/// is reachable; otherwise its diagnostics decide.
pub open spec fn hit_files(gs: Seq<FileGroup>, cs: CollapseState, cur: nat, click: nat) -> HitModel
    decreases gs.len(),
{
    if gs.len() == 0 {
        HitModel::Miss { reason: NoTargetReason::PastEnd }
    } else {
        let sp = file_span(gs.first(), cs.is_collapsed(gs.first().path@));
        if click >= cur + sp {
            hit_files(gs.drop_first(), cs, cur + sp, click)
        } else if click == cur {
            HitModel::Toggle { path: gs.first().path@ }
        } else if cs.is_collapsed(gs.first().path@) {
            HitModel::Miss { reason: NoTargetReason::CollapsedInterior }
        } else {
            hit_diags(gs.first().path@, gs.first().diagnostics@, cur + 1, click)
        }
    }
}

/// What a click at flattened row `click` resolves to on this index.
pub open spec fn hit_spec(gs: Seq<FileGroup>, cs: CollapseState, click: nat) -> HitModel {
    hit_files(gs, cs, 0, click)
}

/// Resolves a click at flattened row `click_line` to its one action.
#[verifier::loop_isolation(false)]
#[verifier::rlimit(50)]
pub fn hit_test(index: &Vec<FileGroup>, cs: &CollapseState, click_line: usize) -> (r: HitResult)
    requires
        index_total(index@, *cs) <= usize::MAX,
    ensures
        hit_view(r) == hit_spec(index@, *cs, click_line as nat),
{
    let mut i: usize = 0;
    let mut cur: usize = 0;
    proof {
        assert(index@.take(0) =~= Seq::<FileGroup>::empty());
        assert(index@.skip(0) =~= index@);
    }
    while i < index.len()
        invariant
            0 <= i <= index@.len(),
            cur == index_total(index@.take(i as int), *cs),
            cur <= click_line,
            hit_files(index@, *cs, 0, click_line as nat) == hit_files(
                index@.skip(i as int),
                *cs,
                cur as nat,
                click_line as nat,
            ),
        decreases index@.len() - i,
    {
        proof {
            assert(index@.skip(i as int).first() == index@[i as int]);
            assert(index@.skip(i as int).drop_first() =~= index@.skip(i as int + 1));
            lemma_index_total_take_succ(index@, *cs, i as int);
            lemma_index_total_split(index@, *cs, i as int + 1);
        }
        let sp = file_span_rows(&index[i], cs);
        if click_line >= cur + sp {
            cur = cur + sp;
            i = i + 1;
        } else {
            let g = &index[i];
            if click_line == cur {
                return HitResult::ToggleCollapse { path: bytes_copy(&g.path) };
            }
            if cs.check_collapsed(&g.path) {
                return HitResult::NoTarget { reason: NoTargetReason::CollapsedInterior };
            }
            // the click lies among this file's diagnostics
            proof {
                assert(hit_files(index@.skip(i as int), *cs, cur as nat, click_line as nat)
                    == hit_diags(g.path@, g.diagnostics@, cur as nat + 1, click_line as nat));
            }
            let base = cur;
            let mut k: usize = 0;
            let mut dcur: usize = base + 1;
            proof {
                assert(g.diagnostics@.take(0) =~= Seq::<Diagnostic>::empty());
                assert(g.diagnostics@.skip(0) =~= g.diagnostics@);
            }
            while k < g.diagnostics.len()
                invariant
                    0 <= k <= g.diagnostics@.len(),
                    dcur == base + 1 + diags_total(g.diagnostics@.take(k as int)),
                    dcur <= click_line,
                    hit_diags(g.path@, g.diagnostics@, base as nat + 1, click_line as nat)
                        == hit_diags(
                        g.path@,
                        g.diagnostics@.skip(k as int),
                        dcur as nat,
                        click_line as nat,
                    ),
                decreases g.diagnostics@.len() - k,
            {
                proof {
                    assert(g.diagnostics@.skip(k as int).first() == g.diagnostics@[k as int]);
                    assert(g.diagnostics@.skip(k as int).drop_first() =~= g.diagnostics@.skip(
                        k as int + 1,
                    ));
                    lemma_diags_total_take_succ(g.diagnostics@, k as int);
                    lemma_diags_total_split(g.diagnostics@, k as int + 1);
                }
                let sp_d = diag_span_rows(&g.diagnostics[k]);
                if click_line >= dcur + sp_d {
                    dcur = dcur + sp_d;
                    k = k + 1;
                } else {
                    let d = &g.diagnostics[k];
                    if click_line < dcur + d.message.len() {
                        return HitResult::JumpToLocation {
                            path: bytes_copy(&g.path),
                            position: d.start,
                        };
                    }
                    // the click lies among this diagnostic's related locations
                    let dbase = dcur;
                    let mut m: usize = 0;
                    let mut rcur: usize = dbase + d.message.len();
                    proof {
                        assert(d.related@.take(0) =~= Seq::<RelatedInfo>::empty());
                        assert(d.related@.skip(0) =~= d.related@);
                    }
                    while m < d.related.len()
                        invariant
                            0 <= m <= d.related@.len(),
                            rcur == dbase + d.message@.len() + related_total(
                                d.related@.take(m as int),
                            ),
                            rcur <= click_line,
                            hit_related(
                                d.related@,
                                dbase as nat + d.message@.len(),
                                click_line as nat,
                            ) == hit_related(
                                d.related@.skip(m as int),
                                rcur as nat,
                                click_line as nat,
                            ),
                        decreases d.related@.len() - m,
                    {
                        proof {
                            assert(d.related@.skip(m as int).first() == d.related@[m as int]);
                            assert(d.related@.skip(m as int).drop_first() =~= d.related@.skip(
                                m as int + 1,
                            ));
                            lemma_related_total_take_succ(d.related@, m as int);
                            lemma_related_total_split(d.related@, m as int + 1);
                        }
                        let sp_r = related_span_rows(&d.related[m]);
                        if click_line >= rcur + sp_r {
                            rcur = rcur + sp_r;
                            m = m + 1;
                        } else {
                            let rel = &d.related[m];
                            match &rel.path {
                                Some(p) => {
                                    return HitResult::JumpToLocation {
                                        path: bytes_copy(p),
                                        position: rel.position,
                                    };
                                },
                                None => {
                                    return HitResult::NoTarget {
                                        reason: NoTargetReason::UnresolvedTarget,
                                    };
                                },
                            }
                        }
                    }
                    proof {
                        assert(d.related@.skip(d.related@.len() as int) =~= Seq::<
                            RelatedInfo,
                        >::empty());
                    }
                    return HitResult::NoTarget { reason: NoTargetReason::PastEnd };
                }
            }
            proof {
                assert(g.diagnostics@.skip(g.diagnostics@.len() as int) =~= Seq::<
                    Diagnostic,
                >::empty());
            }
            return HitResult::NoTarget { reason: NoTargetReason::PastEnd };
        }
    }
    proof {
        assert(index@.skip(index@.len() as int) =~= Seq::<FileGroup>::empty());
    }
    HitResult::NoTarget { reason: NoTargetReason::PastEnd }
}

/// Resolves a click at pixel ordinate `click_y`, rows being `line_height`
/// pixels tall.
pub fn hit_test_at(
    index: &Vec<FileGroup>,
    cs: &CollapseState,
    click_y: usize,
    line_height: usize,
) -> (r: HitResult)
    requires
        line_height >= 1,
        index_total(index@, *cs) <= usize::MAX,
    ensures
        hit_view(r) == hit_spec(index@, *cs, (click_y / line_height) as nat),
{
    hit_test(index, cs, click_y / line_height)
}

} // verus!
