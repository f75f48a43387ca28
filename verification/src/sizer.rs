//! Sizing the scroll area.
//!
//! The required extent is fully determined by the span arithmetic: the total
//! flattened row count is the sum of every file's span, and the pixel height
//! is that count times the row height supplied by the theme.

use vstd::prelude::*;

use crate::model::{CollapseState, Diagnostic, FileGroup, RelatedInfo};
use crate::span::{
    diag_span, diags_total, file_span, file_span_rows, index_total, lemma_diags_total_split,
    lemma_diags_total_take_succ, lemma_index_total_split, lemma_index_total_take_succ,
    lemma_related_total_split, lemma_related_total_take_succ, related_span, related_total,
};

verus! {

/// The total flattened row count of the index: the sum of every file's span
/// under the given collapse flags.
pub fn total_lines(index: &Vec<FileGroup>, cs: &CollapseState) -> (n: usize)
    requires
        index_total(index@, *cs) <= usize::MAX,
    ensures
        n == index_total(index@, *cs),
{
    let mut n: usize = 0;
    let mut i: usize = 0;
    proof {
        assert(index@.take(0) =~= Seq::<FileGroup>::empty());
    }
    while i < index.len()
        invariant
            0 <= i <= index@.len(),
            n == index_total(index@.take(i as int), *cs),
            index_total(index@, *cs) <= usize::MAX,
        decreases index@.len() - i,
    {
        proof {
            lemma_index_total_take_succ(index@, *cs, i as int);
            lemma_index_total_split(index@, *cs, i as int + 1);
            assert(index@.take(index@.len() as int) =~= index@);
        }
        n = n + file_span_rows(&index[i], cs);
        i = i + 1;
    }
    proof {
        assert(index@.take(index@.len() as int) =~= index@);
    }
    n
}

/// The required size of the scrollable content: the row count and the pixel
/// height, which is the row count times `line_height`.
pub fn measure(index: &Vec<FileGroup>, cs: &CollapseState, line_height: usize) -> (r: (
    usize,
    usize,
))
    requires
        index_total(index@, *cs) <= usize::MAX,
        index_total(index@, *cs) * line_height <= usize::MAX,
    ensures
        r.0 == index_total(index@, *cs),
        r.1 == index_total(index@, *cs) * line_height,
{
    let n = total_lines(index, cs);
    (n, n * line_height)
}

/// Rows of one related location, with the machine limit checked instead of
/// assumed: `None` exactly when the count cannot be held in a `usize`.
fn try_related_span_rows(r: &RelatedInfo) -> (n: Option<usize>)
    ensures
        match n {
            Some(v) => v == related_span(*r) && related_span(*r) <= usize::MAX,
            None => related_span(*r) > usize::MAX,
        },
{
    if r.message.len() == usize::MAX {
        None
    } else {
        Some(r.message.len() + 1)
    }
}

/// Rows of one diagnostic, with the machine limit checked instead of assumed.
#[verifier::loop_isolation(false)]
pub fn try_diag_span_rows(d: &Diagnostic) -> (n: Option<usize>)
    ensures
        match n {
            Some(v) => v == diag_span(*d) && diag_span(*d) <= usize::MAX,
            None => diag_span(*d) > usize::MAX,
        },
{
    let mut n: usize = d.message.len();
    let mut i: usize = 0;
    proof {
        assert(d.related@.take(0) =~= Seq::<RelatedInfo>::empty());
    }
    while i < d.related.len()
        invariant
            0 <= i <= d.related@.len(),
            n == d.message@.len() + related_total(d.related@.take(i as int)),
        decreases d.related@.len() - i,
    {
        proof {
            lemma_related_total_take_succ(d.related@, i as int);
            lemma_related_total_split(d.related@, i as int + 1);
            assert(d.related@.take(d.related@.len() as int) =~= d.related@);
        }
        let sp = match try_related_span_rows(&d.related[i]) {
            Some(sp) => sp,
            None => {
                return None;
            },
        };
        if n > usize::MAX - sp {
            return None;
        }
        n = n + sp;
        i = i + 1;
    }
    proof {
        assert(d.related@.take(d.related@.len() as int) =~= d.related@);
    }
    Some(n)
}

/// Rows of one file, with the machine limit checked instead of assumed.
#[verifier::loop_isolation(false)]
pub fn try_file_span_rows(f: &FileGroup, cs: &CollapseState) -> (n: Option<usize>)
    ensures
        match n {
            Some(v) => v == file_span(*f, cs.is_collapsed(f.path@)) && file_span(
                *f,
                cs.is_collapsed(f.path@),
            ) <= usize::MAX,
            None => file_span(*f, cs.is_collapsed(f.path@)) > usize::MAX,
        },
{
    if cs.check_collapsed(&f.path) {
        return Some(1);
    }
    let mut n: usize = 1;
    let mut i: usize = 0;
    proof {
        assert(f.diagnostics@.take(0) =~= Seq::<Diagnostic>::empty());
    }
    while i < f.diagnostics.len()
        invariant
            0 <= i <= f.diagnostics@.len(),
            n == 1 + diags_total(f.diagnostics@.take(i as int)),
        decreases f.diagnostics@.len() - i,
    {
        proof {
            lemma_diags_total_take_succ(f.diagnostics@, i as int);
            lemma_diags_total_split(f.diagnostics@, i as int + 1);
            assert(f.diagnostics@.take(f.diagnostics@.len() as int) =~= f.diagnostics@);
        }
        let sp = match try_diag_span_rows(&f.diagnostics[i]) {
            Some(sp) => sp,
            None => {
                return None;
            },
        };
        if n > usize::MAX - sp {
            return None;
        }
        n = n + sp;
        i = i + 1;
    }
    proof {
        assert(f.diagnostics@.take(f.diagnostics@.len() as int) =~= f.diagnostics@);
    }
    Some(n)
}

/// The total flattened row count, with the machine limit checked instead of
/// assumed: `None` exactly when the total cannot be held in a `usize`. An
/// unverified caller tests its input through this before using the functions
/// that assume the bound.
#[verifier::loop_isolation(false)]
pub fn try_total_lines(index: &Vec<FileGroup>, cs: &CollapseState) -> (r: Option<usize>)
    ensures
        match r {
            Some(n) => n == index_total(index@, *cs) && index_total(index@, *cs) <= usize::MAX,
            None => index_total(index@, *cs) > usize::MAX,
        },
{
    let mut n: usize = 0;
    let mut i: usize = 0;
    proof {
        assert(index@.take(0) =~= Seq::<FileGroup>::empty());
    }
    while i < index.len()
        invariant
            0 <= i <= index@.len(),
            n == index_total(index@.take(i as int), *cs),
        decreases index@.len() - i,
    {
        proof {
            lemma_index_total_take_succ(index@, *cs, i as int);
            lemma_index_total_split(index@, *cs, i as int + 1);
            assert(index@.take(index@.len() as int) =~= index@);
        }
        let sp = match try_file_span_rows(&index[i], cs) {
            Some(sp) => sp,
            None => {
                return None;
            },
        };
        if n > usize::MAX - sp {
            return None;
        }
        n = n + sp;
        i = i + 1;
    }
    proof {
        assert(index@.take(index@.len() as int) =~= index@);
    }
    Some(n)
}

/// `measure`, with the machine limits checked instead of assumed: `None`
/// exactly when the row count or the pixel height cannot be held in a
/// `usize`.
pub fn try_measure(index: &Vec<FileGroup>, cs: &CollapseState, line_height: usize) -> (r: Option<
    (usize, usize),
>)
    ensures
        match r {
            Some(s) => s.0 == index_total(index@, *cs) && s.1 == index_total(index@, *cs)
                * line_height,
            None => index_total(index@, *cs) > usize::MAX || index_total(index@, *cs) * line_height
                > usize::MAX,
        },
{
    let n = match try_total_lines(index, cs) {
        Some(n) => n,
        None => {
            return None;
        },
    };
    proof {
        assert((n as int) * (line_height as int) < 0x1_0000_0000_0000_0000_0000_0000_0000_0000int)
            by (nonlinear_arith)
            requires
                0 <= (n as int) && (n as int) < 0x1_0000_0000_0000_0000int,
                0 <= (line_height as int) && (line_height as int) < 0x1_0000_0000_0000_0000int,
        ;
    }
    if (n as u128) * (line_height as u128) > usize::MAX as u128 {
        return None;
    }
    Some((n, n * line_height))
}

/// The row a pixel ordinate falls in: its floor under division by the row
/// height. Both clicks and the visible range are mapped through this.
pub fn row_of_y(y: usize, line_height: usize) -> (r: usize)
    requires
        line_height >= 1,
    ensures
        r == y / line_height,
{
    y / line_height
}

} // verus!
