//! Painting only the visible rows.
//!
//! The walk advances a running row cursor by every entry's span, whether or
//! not the entry is drawn: later positions are the cumulative sum of
//! everything before them, so counting is never skipped, only emission. A
//! file lying wholly above the visible range emits nothing; the walk stops
//! outright at the first file starting below it.
//!
//! Instructions address rows and indent columns; one row is `line_height`
//! pixels tall and one indent column `line_height` pixels wide, with
//! [`crate::sizer::measure`] and [`scale`] giving the exact pixel values.

use vstd::prelude::*;

use crate::model::{bytes_copy, CollapseState, Diagnostic, FileGroup, RelatedInfo, Severity};
use crate::paths::{file_name, file_name_spec, folder_label, folder_label_spec};
use crate::span::{
    diag_span, diag_span_rows, diags_total, file_span, file_span_rows, index_total,
    lemma_diags_total_split, lemma_diags_total_take_succ, lemma_index_total_split,
    lemma_index_total_take_succ, lemma_related_total_split, lemma_related_total_take_succ,
    related_span, related_span_rows, related_total,
};

verus! {

/// One drawing instruction for the external surface. Rows count from the top
/// of the content, indent columns from its left edge; widths are in pixels.
#[derive(PartialEq, Eq, Debug)]
pub enum DrawInstruction {
    /// The file-type icon of a file header row, at indent column zero.
    FileIcon { row: usize, path: Vec<u8> },
    /// The file name of a file header row, at indent column one.
    FileName { row: usize, name: Vec<u8> },
    /// The dimmed parent-folder label of an expanded file header row; the
    /// surface places it after the file name on the same row.
    FolderLabel { row: usize, folder: Vec<u8> },
    /// The severity icon on a diagnostic's first message row, at indent
    /// column one.
    SeverityIcon { row: usize, severity: Severity },
    /// One row of message text at the given indent column.
    MessageText { row: usize, indent: usize, text: String },
    /// The hover highlight behind a block of rows, the full width wide.
    HighlightRect { first_row: usize, row_count: usize, width: usize },
    /// The link icon of a related location's header row, at indent column
    /// two.
    LinkIcon { row: usize },
    /// The header of a related location at indent column three: its target
    /// file name and position, shown as `name[line, column]:`.
    RelatedHeader { row: usize, name: Vec<u8>, line: u32, character: u32 },
}

/// Ghost form of a drawing instruction.
pub enum DrawOp {
    FileIcon { row: int, path: Seq<u8> },
    FileName { row: int, name: Seq<u8> },
    FolderLabel { row: int, folder: Seq<u8> },
    SeverityIcon { row: int, severity: Severity },
    MessageText { row: int, indent: int, text: Seq<char> },
    HighlightRect { first_row: int, row_count: int, width: int },
    LinkIcon { row: int },
    RelatedHeader { row: int, name: Seq<u8>, line: u32, character: u32 },
}

/// The ghost value one instruction stands for.
pub open spec fn op_view(d: DrawInstruction) -> DrawOp {
    match d {
        DrawInstruction::FileIcon { row, path } => DrawOp::FileIcon { row: row as int, path: path@ },
        DrawInstruction::FileName { row, name } => DrawOp::FileName { row: row as int, name: name@ },
        DrawInstruction::FolderLabel { row, folder } => DrawOp::FolderLabel {
            row: row as int,
            folder: folder@,
        },
        DrawInstruction::SeverityIcon { row, severity } => DrawOp::SeverityIcon {
            row: row as int,
            severity,
        },
        DrawInstruction::MessageText { row, indent, text } => DrawOp::MessageText {
            row: row as int,
            indent: indent as int,
            text: text@,
        },
        DrawInstruction::HighlightRect { first_row, row_count, width } => DrawOp::HighlightRect {
            first_row: first_row as int,
            row_count: row_count as int,
            width: width as int,
        },
        DrawInstruction::LinkIcon { row } => DrawOp::LinkIcon { row: row as int },
        DrawInstruction::RelatedHeader { row, name, line, character } => DrawOp::RelatedHeader {
            row: row as int,
            name: name@,
            line,
            character,
        },
    }
}

/// The ghost values of a run of instructions.
pub open spec fn ops_view(s: Seq<DrawInstruction>) -> Seq<DrawOp> {
    s.map_values(|d: DrawInstruction| op_view(d))
}

proof fn lemma_ops_view_push(s: Seq<DrawInstruction>, d: DrawInstruction)
    ensures
        ops_view(s.push(d)) =~= ops_view(s).push(op_view(d)),
{
}

/// The fixed inputs of one paint pass: the visible row range, the content
/// width, the hovered row if the pointer is over the panel, and the
/// workspace root.
pub struct RenderEnv {
    pub min_line: int,
    pub max_line: int,
    pub width: int,
    pub hover: Option<int>,
    pub workspace: Option<Seq<u8>>,
}

/// The ghost hovered row.
pub open spec fn hover_view(h: Option<usize>) -> Option<int> {
    match h {
        Some(l) => Some(l as int),
        None => None,
    }
}

/// The ghost workspace root.
pub open spec fn ws_view(w: Option<&Vec<u8>>) -> Option<Seq<u8>> {
    match w {
        Some(x) => Some(x@),
        None => None,
    }
}

/// The environment a paint pass with these inputs runs under.
pub open spec fn env_of(
    min_line: usize,
    max_line: usize,
    width: usize,
    hover: Option<usize>,
    workspace: Option<Seq<u8>>,
) -> RenderEnv {
    RenderEnv {
        min_line: min_line as int,
        max_line: max_line as int,
        width: width as int,
        hover: hover_view(hover),
        workspace,
    }
}

/// Whether the hovered row lies inside the `count` rows starting at `row`.
pub open spec fn hover_in(env: RenderEnv, row: int, count: int) -> bool {
    match env.hover {
        Some(l) => row <= l < row + count,
        None => false,
    }
}

/// One text row per message line, rows advancing one by one.
pub open spec fn msg_texts(msgs: Seq<String>, row: int, indent: int) -> Seq<DrawOp>
    decreases msgs.len(),
{
    if msgs.len() == 0 {
        Seq::empty()
    } else {
        seq![DrawOp::MessageText { row, indent, text: msgs.first()@ }] + msg_texts(
            msgs.drop_first(),
            row + 1,
            indent,
        )
    }
}

/// The file name shown on a related location's header row; empty when its
/// target could not be resolved.
pub open spec fn related_name(r: RelatedInfo) -> Seq<u8> {
    match r.path {
        Some(p) => file_name_spec(p@),
        None => Seq::empty(),
    }
}

/// One related location, its block starting at `row`: the hover highlight
/// over its whole block, then its link icon, header and message rows.
pub open spec fn render_related(r: RelatedInfo, row: int, env: RenderEnv) -> Seq<DrawOp> {
    let sp = related_span(r) as int;
    let hl: Seq<DrawOp> = if hover_in(env, row, sp) {
        seq![DrawOp::HighlightRect { first_row: row, row_count: sp, width: env.width }]
    } else {
        Seq::empty()
    };
    hl + seq![
        DrawOp::LinkIcon { row },
        DrawOp::RelatedHeader {
            row,
            name: related_name(r),
            line: r.position.line,
            character: r.position.character,
        },
    ] + msg_texts(r.message@, row + 1, 3)
}

/// A run of related locations, blocks following one another.
pub open spec fn render_relateds(rs: Seq<RelatedInfo>, row: int, env: RenderEnv) -> Seq<DrawOp>
    decreases rs.len(),
{
    if rs.len() == 0 {
        Seq::empty()
    } else {
        render_related(rs.first(), row, env) + render_relateds(
            rs.drop_first(),
            row + related_span(rs.first()),
            env,
        )
    }
}

/// One diagnostic, its first message row at `row`: the hover highlight over
/// its message rows only, its severity icon, message rows, then its related
/// locations.
pub open spec fn render_diag(d: Diagnostic, row: int, env: RenderEnv) -> Seq<DrawOp> {
    let m = d.message@.len() as int;
    let hl: Seq<DrawOp> = if hover_in(env, row, m) {
        seq![DrawOp::HighlightRect { first_row: row, row_count: m, width: env.width }]
    } else {
        Seq::empty()
    };
    hl + seq![DrawOp::SeverityIcon { row, severity: d.severity }] + msg_texts(d.message@, row, 2)
        + render_relateds(d.related@, row + m, env)
}

/// A run of diagnostics with culling: one wholly above the visible range
/// advances the cursor and emits nothing; one starting below it stops the
/// walk.
pub open spec fn render_diags(ds: Seq<Diagnostic>, row: int, env: RenderEnv) -> Seq<DrawOp>
    decreases ds.len(),
{
    if ds.len() == 0 {
        Seq::empty()
    } else {
        let sp = diag_span(ds.first()) as int;
        if row > env.max_line {
            Seq::empty()
        } else if row + sp <= env.min_line {
            render_diags(ds.drop_first(), row + sp, env)
        } else {
            render_diag(ds.first(), row, env) + render_diags(ds.drop_first(), row + sp, env)
        }
    }
}

/// One file, its header at `row`: icon and name always; folder label and
/// diagnostics only when expanded.
pub open spec fn render_file(g: FileGroup, collapsed: bool, row: int, env: RenderEnv) -> Seq<
    DrawOp,
> {
    let header = seq![
        DrawOp::FileIcon { row, path: g.path@ },
        DrawOp::FileName { row, name: file_name_spec(g.path@) },
    ];
    if collapsed {
        header
    } else {
        let folder = folder_label_spec(g.path@, env.workspace);
        let fl: Seq<DrawOp> = if folder.len() > 0 {
            seq![DrawOp::FolderLabel { row, folder }]
        } else {
            Seq::empty()
        };
        header + fl + render_diags(g.diagnostics@, row + 1, env)
    }
}

/// The walk over all files: a file wholly above the visible range advances
/// the cursor and emits nothing; the walk stops at the first file starting
/// below it.
pub open spec fn render_files(gs: Seq<FileGroup>, cs: CollapseState, row: int, env: RenderEnv) -> Seq<
    DrawOp,
>
    decreases gs.len(),
{
    if gs.len() == 0 {
        Seq::empty()
    } else {
        let c = cs.is_collapsed(gs.first().path@);
        let sp = file_span(gs.first(), c) as int;
        if row > env.max_line {
            Seq::empty()
        } else if row + sp <= env.min_line {
            render_files(gs.drop_first(), cs, row + sp, env)
        } else {
            render_file(gs.first(), c, row, env) + render_files(gs.drop_first(), cs, row + sp, env)
        }
    }
}

/// Everything one paint pass draws.
pub open spec fn render_spec(gs: Seq<FileGroup>, cs: CollapseState, env: RenderEnv) -> Seq<
    DrawOp,
> {
    render_files(gs, cs, 0, env)
}

/// Emits one text row per message line, starting at `row`.
#[verifier::loop_isolation(false)]
fn emit_texts(out: &mut Vec<DrawInstruction>, msgs: &Vec<String>, row: usize, indent: usize)
    requires
        row + msgs@.len() <= usize::MAX,
    ensures
        ops_view(final(out)@) == ops_view(old(out)@) + msg_texts(msgs@, row as int, indent as int),
{
    let mut i: usize = 0;
    proof {
        assert(msgs@.skip(0) =~= msgs@);
    }
    while i < msgs.len()
        invariant
            0 <= i <= msgs@.len(),
            ops_view(out@) + msg_texts(msgs@.skip(i as int), row + i as int, indent as int)
                =~= ops_view(old(out)@) + msg_texts(msgs@, row as int, indent as int),
        decreases msgs@.len() - i,
    {
        let ghost prev = out@;
        let ins = DrawInstruction::MessageText { row: row + i, indent, text: msgs[i].clone() };
        out.push(ins);
        proof {
            lemma_ops_view_push(prev, ins);
            assert(msgs@.skip(i as int).first() == msgs@[i as int]);
            assert(msgs@.skip(i as int).drop_first() =~= msgs@.skip(i as int + 1));
            assert(op_view(ins) == DrawOp::MessageText {
                row: row + i as int,
                indent: indent as int,
                text: msgs@[i as int]@,
            });
            assert(msg_texts(msgs@.skip(i as int), row + i as int, indent as int) == seq![
                op_view(ins),
            ] + msg_texts(msgs@.skip(i as int + 1), row + i as int + 1, indent as int));
            assert(ops_view(out@) + msg_texts(msgs@.skip(i as int + 1), row + i + 1, indent as int)
                =~= (ops_view(prev) + msg_texts(msgs@.skip(i as int), row + i as int, indent as int)));
        }
        i = i + 1;
    }
    proof {
        assert(msgs@.skip(msgs@.len() as int) =~= Seq::<String>::empty());
        assert(ops_view(out@) + Seq::<DrawOp>::empty() =~= ops_view(out@));
        assert(ops_view(out@) =~= ops_view(old(out)@) + msg_texts(
            msgs@,
            row as int,
            indent as int,
        ));
    }
}

/// Emits one related location's block.
#[verifier::loop_isolation(false)]
fn emit_related(
    out: &mut Vec<DrawInstruction>,
    r: &RelatedInfo,
    row: usize,
    width: usize,
    hover: Option<usize>,
    Ghost(env): Ghost<RenderEnv>,
)
    requires
        row + related_span(*r) <= usize::MAX,
        env.width == width as int,
        env.hover == hover_view(hover),
    ensures
        ops_view(final(out)@) == ops_view(old(out)@) + render_related(*r, row as int, env),
{
    let sp = related_span_rows(r);
    let hovered = match hover {
        Some(l) => row <= l && l < row + sp,
        None => false,
    };
    let ghost hl: Seq<DrawOp> = if hover_in(env, row as int, sp as int) {
        seq![
            DrawOp::HighlightRect {
                first_row: row as int,
                row_count: sp as int,
                width: width as int,
            },
        ]
    } else {
        Seq::empty()
    };
    if hovered {
        let ghost prev = out@;
        let ins = DrawInstruction::HighlightRect { first_row: row, row_count: sp, width };
        out.push(ins);
        proof {
            lemma_ops_view_push(prev, ins);
        }
    }
    proof {
        assert(ops_view(out@) =~= ops_view(old(out)@) + hl);
    }
    let ghost mid = out@;
    let link = DrawInstruction::LinkIcon { row };
    out.push(link);
    let name = match &r.path {
        Some(p) => file_name(p),
        None => Vec::new(),
    };
    proof {
        if r.path is None {
            assert(file_name_spec(Seq::<u8>::empty()) == Seq::<u8>::empty());
        }
        assert(name@ == related_name(*r));
    }
    let ghost mid2 = out@;
    let header = DrawInstruction::RelatedHeader {
        row,
        name,
        line: r.position.line,
        character: r.position.character,
    };
    out.push(header);
    proof {
        lemma_ops_view_push(mid, link);
        lemma_ops_view_push(mid2, header);
        assert(ops_view(out@) =~= (ops_view(old(out)@) + hl) + seq![
            op_view(link),
            op_view(header),
        ]);
    }
    emit_texts(out, &r.message, row + 1, 3);
    proof {
        assert(ops_view(out@) =~= ops_view(old(out)@) + render_related(*r, row as int, env));
    }
}

/// Emits one diagnostic's block: highlight, icon, message rows, then every
/// related location.
#[verifier::loop_isolation(false)]
fn emit_diag(
    out: &mut Vec<DrawInstruction>,
    d: &Diagnostic,
    row: usize,
    width: usize,
    hover: Option<usize>,
    Ghost(env): Ghost<RenderEnv>,
)
    requires
        row + diag_span(*d) <= usize::MAX,
        env.width == width as int,
        env.hover == hover_view(hover),
    ensures
        ops_view(final(out)@) == ops_view(old(out)@) + render_diag(*d, row as int, env),
{
    let m = d.message.len();
    let hovered = match hover {
        Some(l) => row <= l && l < row + m,
        None => false,
    };
    let ghost hl: Seq<DrawOp> = if hover_in(env, row as int, m as int) {
        seq![
            DrawOp::HighlightRect {
                first_row: row as int,
                row_count: m as int,
                width: width as int,
            },
        ]
    } else {
        Seq::empty()
    };
    if hovered {
        let ghost prev = out@;
        let ins = DrawInstruction::HighlightRect { first_row: row, row_count: m, width };
        out.push(ins);
        proof {
            lemma_ops_view_push(prev, ins);
        }
    }
    proof {
        assert(ops_view(out@) =~= ops_view(old(out)@) + hl);
    }
    let ghost mid = out@;
    let icon = DrawInstruction::SeverityIcon { row, severity: d.severity };
    out.push(icon);
    proof {
        lemma_ops_view_push(mid, icon);
        assert(ops_view(out@) =~= (ops_view(old(out)@) + hl) + seq![op_view(icon)]);
    }
    emit_texts(out, &d.message, row, 2);
    let ghost before_rel = ops_view(out@);
    proof {
        assert(before_rel =~= ((ops_view(old(out)@) + hl) + seq![op_view(icon)]) + msg_texts(
            d.message@,
            row as int,
            2,
        ));
        assert(d.related@.skip(0) =~= d.related@);
        assert(d.related@.take(0) =~= Seq::<RelatedInfo>::empty());
    }
    let mut k: usize = 0;
    let mut rcur: usize = row + m;
    while k < d.related.len()
        invariant
            0 <= k <= d.related@.len(),
            rcur == row + m + related_total(d.related@.take(k as int)),
            ops_view(out@) + render_relateds(d.related@.skip(k as int), rcur as int, env)
                =~= before_rel + render_relateds(d.related@, row + m as int, env),
        decreases d.related@.len() - k,
    {
        proof {
            assert(d.related@.skip(k as int).first() == d.related@[k as int]);
            assert(d.related@.skip(k as int).drop_first() =~= d.related@.skip(k as int + 1));
            lemma_related_total_take_succ(d.related@, k as int);
            lemma_related_total_split(d.related@, k as int + 1);
        }
        let ghost prev = out@;
        emit_related(out, &d.related[k], rcur, width, hover, Ghost(env));
        proof {
            assert(ops_view(out@) =~= ops_view(prev) + render_related(
                d.related@[k as int],
                rcur as int,
                env,
            ));
            assert(ops_view(out@) + render_relateds(
                d.related@.skip(k as int + 1),
                rcur + related_span(d.related@[k as int]),
                env,
            ) =~= ops_view(prev) + render_relateds(d.related@.skip(k as int), rcur as int, env));
        }
        rcur = rcur + related_span_rows(&d.related[k]);
        k = k + 1;
    }
    proof {
        assert(d.related@.skip(d.related@.len() as int) =~= Seq::<RelatedInfo>::empty());
        assert(ops_view(out@) + Seq::<DrawOp>::empty() =~= ops_view(out@));
        assert(ops_view(out@) =~= before_rel + render_relateds(d.related@, row + m as int, env));
        assert(ops_view(out@) =~= ops_view(old(out)@) + render_diag(*d, row as int, env));
    }
}

/// Emits one file: header always; folder label and diagnostics, with
/// culling, when expanded.
#[verifier::loop_isolation(false)]
fn emit_file(
    out: &mut Vec<DrawInstruction>,
    g: &FileGroup,
    cs: &CollapseState,
    row: usize,
    min_line: usize,
    max_line: usize,
    width: usize,
    hover: Option<usize>,
    workspace: Option<&Vec<u8>>,
    Ghost(env): Ghost<RenderEnv>,
)
    requires
        row + file_span(*g, cs.is_collapsed(g.path@)) <= usize::MAX,
        env.min_line == min_line as int,
        env.max_line == max_line as int,
        env.width == width as int,
        env.hover == hover_view(hover),
        env.workspace == ws_view(workspace),
    ensures
        ops_view(final(out)@) == ops_view(old(out)@) + render_file(
            *g,
            cs.is_collapsed(g.path@),
            row as int,
            env,
        ),
{
    let ghost prev0 = out@;
    let icon = DrawInstruction::FileIcon { row, path: bytes_copy(&g.path) };
    out.push(icon);
    let ghost prev1 = out@;
    let nm = DrawInstruction::FileName { row, name: file_name(&g.path) };
    out.push(nm);
    proof {
        lemma_ops_view_push(prev0, icon);
        lemma_ops_view_push(prev1, nm);
        assert(ops_view(out@) =~= ops_view(old(out)@) + seq![op_view(icon), op_view(nm)]);
        assert(op_view(icon) == DrawOp::FileIcon { row: row as int, path: g.path@ });
        assert(op_view(nm) == DrawOp::FileName { row: row as int, name: file_name_spec(g.path@) });
    }
    if cs.check_collapsed(&g.path) {
        proof {
            assert(ops_view(out@) =~= ops_view(old(out)@) + render_file(
                *g,
                true,
                row as int,
                env,
            ));
        }
        return ;
    }
    let folder = folder_label(&g.path, workspace);
    if folder.len() > 0 {
        let ghost prev2 = out@;
        let fl = DrawInstruction::FolderLabel { row, folder };
        out.push(fl);
        proof {
            lemma_ops_view_push(prev2, fl);
        }
    }
    let ghost before_diags = ops_view(out@);
    proof {
        let header = seq![
            DrawOp::FileIcon { row: row as int, path: g.path@ },
            DrawOp::FileName { row: row as int, name: file_name_spec(g.path@) },
        ];
        let fls: Seq<DrawOp> = if folder_label_spec(g.path@, env.workspace).len() > 0 {
            seq![
                DrawOp::FolderLabel {
                    row: row as int,
                    folder: folder_label_spec(g.path@, env.workspace),
                },
            ]
        } else {
            Seq::empty()
        };
        assert(before_diags =~= (ops_view(old(out)@) + header) + fls);
        assert(g.diagnostics@.skip(0) =~= g.diagnostics@);
        assert(g.diagnostics@.take(0) =~= Seq::<Diagnostic>::empty());
    }
    let mut k: usize = 0;
    let mut drow: usize = row + 1;
    let mut stop = false;
    while k < g.diagnostics.len() && !stop
        invariant
            0 <= k <= g.diagnostics@.len(),
            drow == row + 1 + diags_total(g.diagnostics@.take(k as int)),
            ops_view(out@) + render_diags(g.diagnostics@.skip(k as int), drow as int, env)
                =~= before_diags + render_diags(g.diagnostics@, row + 1 as int, env),
            stop ==> render_diags(g.diagnostics@.skip(k as int), drow as int, env)
                =~= Seq::<DrawOp>::empty(),
        decreases g.diagnostics@.len() - k, if stop { 0int } else { 1int },
    {
        proof {
            assert(g.diagnostics@.skip(k as int).first() == g.diagnostics@[k as int]);
            assert(g.diagnostics@.skip(k as int).drop_first() =~= g.diagnostics@.skip(
                k as int + 1,
            ));
            lemma_diags_total_take_succ(g.diagnostics@, k as int);
            lemma_diags_total_split(g.diagnostics@, k as int + 1);
        }
        if drow > max_line {
            proof {
                assert(render_diags(g.diagnostics@.skip(k as int), drow as int, env)
                    =~= Seq::<DrawOp>::empty());
                assert(ops_view(out@) + Seq::<DrawOp>::empty() =~= ops_view(out@));
            }
            stop = true;
        } else {
        let sp_d = diag_span_rows(&g.diagnostics[k]);
        if drow + sp_d <= min_line {
            proof {
                assert(render_diags(g.diagnostics@.skip(k as int), drow as int, env)
                    == render_diags(
                    g.diagnostics@.skip(k as int + 1),
                    drow as int + sp_d as int,
                    env,
                ));
            }
            drow = drow + sp_d;
            k = k + 1;
        } else {
            let ghost prev = out@;
            emit_diag(out, &g.diagnostics[k], drow, width, hover, Ghost(env));
            proof {
                assert(ops_view(out@) =~= ops_view(prev) + render_diag(
                    g.diagnostics@[k as int],
                    drow as int,
                    env,
                ));
                assert(ops_view(out@) + render_diags(
                    g.diagnostics@.skip(k as int + 1),
                    drow + sp_d as int,
                    env,
                ) =~= ops_view(prev) + render_diags(
                    g.diagnostics@.skip(k as int),
                    drow as int,
                    env,
                ));
            }
            drow = drow + sp_d;
            k = k + 1;
        }
        }
    }
    proof {
        assert(g.diagnostics@.skip(g.diagnostics@.len() as int) =~= Seq::<Diagnostic>::empty());
        assert(ops_view(out@) =~= ops_view(old(out)@) + render_file(*g, false, row as int, env));
    }
}

/// One paint pass: walks the index in order, emitting only what intersects
/// the visible row range `[min_line, max_line]`, while the row cursor always
/// advances by every file's full span.
#[verifier::loop_isolation(false)]
#[verifier::rlimit(50)]
pub fn render(
    index: &Vec<FileGroup>,
    cs: &CollapseState,
    hover: Option<usize>,
    min_line: usize,
    max_line: usize,
    width: usize,
    workspace: Option<&Vec<u8>>,
) -> (out: Vec<DrawInstruction>)
    requires
        index_total(index@, *cs) <= usize::MAX,
    ensures
        ops_view(out@) == render_spec(
            index@,
            *cs,
            env_of(min_line, max_line, width, hover, ws_view(workspace)),
        ),
{
    let ghost env = env_of(min_line, max_line, width, hover, ws_view(workspace));
    let mut out: Vec<DrawInstruction> = Vec::new();
    let mut i: usize = 0;
    let mut row: usize = 0;
    proof {
        assert(index@.skip(0) =~= index@);
        assert(index@.take(0) =~= Seq::<FileGroup>::empty());
        assert(ops_view(out@) =~= Seq::<DrawOp>::empty());
    }
    let mut stop = false;
    while i < index.len() && !stop
        invariant
            0 <= i <= index@.len(),
            row == index_total(index@.take(i as int), *cs),
            ops_view(out@) + render_files(index@.skip(i as int), *cs, row as int, env)
                =~= render_files(index@, *cs, 0, env),
            stop ==> render_files(index@.skip(i as int), *cs, row as int, env)
                =~= Seq::<DrawOp>::empty(),
        decreases index@.len() - i, if stop { 0int } else { 1int },
    {
        proof {
            assert(index@.skip(i as int).first() == index@[i as int]);
            assert(index@.skip(i as int).drop_first() =~= index@.skip(i as int + 1));
            lemma_index_total_take_succ(index@, *cs, i as int);
            lemma_index_total_split(index@, *cs, i as int + 1);
        }
        if row > max_line {
            proof {
                assert(render_files(index@.skip(i as int), *cs, row as int, env)
                    =~= Seq::<DrawOp>::empty());
                assert(ops_view(out@) + Seq::<DrawOp>::empty() =~= ops_view(out@));
            }
            stop = true;
        } else {
        let sp = file_span_rows(&index[i], cs);
        if row + sp <= min_line {
            proof {
                assert(render_files(index@.skip(i as int), *cs, row as int, env) == render_files(
                    index@.skip(i as int + 1),
                    *cs,
                    row as int + sp as int,
                    env,
                ));
            }
            row = row + sp;
            i = i + 1;
        } else {
            let ghost prev = out@;
            emit_file(
                &mut out,
                &index[i],
                cs,
                row,
                min_line,
                max_line,
                width,
                hover,
                workspace,
                Ghost(env),
            );
            proof {
                assert(ops_view(out@) =~= ops_view(prev) + render_file(
                    index@[i as int],
                    cs.is_collapsed(index@[i as int].path@),
                    row as int,
                    env,
                ));
                assert(ops_view(out@) + render_files(
                    index@.skip(i as int + 1),
                    *cs,
                    row + sp as int,
                    env,
                ) =~= ops_view(prev) + render_files(index@.skip(i as int), *cs, row as int, env));
            }
            row = row + sp;
            i = i + 1;
        }
        }
    }
    proof {
        assert(index@.skip(index@.len() as int) =~= Seq::<FileGroup>::empty());
    }
    out
}

/// A file wholly outside the visible rows gets no draw instruction, yet the
/// cursor always advances past it: when its whole span lies above the
/// visible range, the walk's output is exactly the output of the remaining
/// walk with the cursor moved past the file; and at a file starting below
/// the range the walk emits nothing at all, there or after.
pub proof fn lemma_culled_file_emits_nothing(
    gs: Seq<FileGroup>,
    cs: CollapseState,
    row: int,
    env: RenderEnv,
)
    requires
        gs.len() > 0,
    ensures
        row <= env.max_line && row + file_span(gs.first(), cs.is_collapsed(gs.first().path@))
            <= env.min_line ==> render_files(gs, cs, row, env) == render_files(
            gs.drop_first(),
            cs,
            row + file_span(gs.first(), cs.is_collapsed(gs.first().path@)),
            env,
        ),
        row > env.max_line ==> render_files(gs, cs, row, env) == Seq::<DrawOp>::empty(),
{
}

/// The inclusive visible row range of the pixel range `[y0, y1]`: its first
/// row, and its last row with two rows of forward slack for partially
/// visible ones.
pub fn visible_rows(y0: usize, y1: usize, line_height: usize) -> (r: (usize, usize))
    requires
        line_height >= 1,
        y1 <= usize::MAX - 2,
    ensures
        r.0 == y0 / line_height,
        r.1 == y1 / line_height + 2,
{
    (y0 / line_height, y1 / line_height + 2)
}

/// The pixel extent of `n` rows or indent columns.
pub fn scale(n: usize, line_height: usize) -> (r: usize)
    requires
        n * line_height <= usize::MAX,
    ensures
        r == n * line_height,
{
    n * line_height
}

} // verus!
