use problem_panel::hit::{hit_test, hit_test_at, HitResult, NoTargetReason};
use problem_panel::index::build_index;
use problem_panel::model::{
    CollapseState, Diagnostic, FileGroup, Position, RelatedInfo, Severity,
};
use problem_panel::render::{render, scale, visible_rows, DrawInstruction};
use problem_panel::sizer::{measure, row_of_y, total_lines};
use problem_panel::span::{diag_span_rows, file_span_rows, related_span_rows};

fn lines(v: &[&str]) -> Vec<String> {
    v.iter().map(|s| s.to_string()).collect()
}

fn diag(severity: Severity, line: u32, msg: &[&str], related: Vec<RelatedInfo>) -> Diagnostic {
    Diagnostic {
        severity,
        start: Position { line, character: 0 },
        message: lines(msg),
        related,
    }
}

fn related(path: Option<&str>, line: u32, character: u32, msg: &[&str]) -> RelatedInfo {
    RelatedInfo {
        path: path.map(|p| p.as_bytes().to_vec()),
        position: Position { line, character },
        message: lines(msg),
    }
}

/// The two files of the reference scenario: `a.rs` with one one-line error,
/// `b.rs` with one warning (to be filtered out) and one two-line error
/// carrying a one-line related location in `c.rs`.
fn scenario() -> Vec<(Vec<u8>, Vec<Diagnostic>)> {
    vec![
        (
            b"b.rs".to_vec(),
            vec![
                diag(Severity::Warning, 9, &["w"], vec![]),
                diag(
                    Severity::Error,
                    4,
                    &["x", "y"],
                    vec![related(Some("c.rs"), 7, 3, &["r"])],
                ),
            ],
        ),
        (b"a.rs".to_vec(), vec![diag(Severity::Error, 1, &["e1"], vec![])]),
    ]
}

fn collapsed(paths: &[&str]) -> CollapseState {
    CollapseState {
        collapsed: paths.iter().map(|p| p.as_bytes().to_vec()).collect(),
    }
}

#[test]
fn index_sorts_and_filters() {
    let index = build_index(scenario(), Severity::Error);
    assert_eq!(index.len(), 2);
    assert_eq!(index[0].path, b"a.rs".to_vec());
    assert_eq!(index[1].path, b"b.rs".to_vec());
    // the warning of b.rs is gone, the error kept
    assert_eq!(index[1].diagnostics.len(), 1);
    assert!(matches!(index[1].diagnostics[0].severity, Severity::Error));
    assert_eq!(index[1].diagnostics[0].message, lines(&["x", "y"]));
}

#[test]
fn file_with_no_match_is_absent() {
    let input = vec![
        (b"only_warnings.rs".to_vec(), vec![diag(Severity::Warning, 0, &["w"], vec![])]),
        (b"has_error.rs".to_vec(), vec![diag(Severity::Error, 0, &["e"], vec![])]),
    ];
    let index = build_index(input, Severity::Error);
    assert_eq!(index.len(), 1);
    assert_eq!(index[0].path, b"has_error.rs".to_vec());
    for g in &index {
        assert!(!g.diagnostics.is_empty());
        assert!(g.diagnostics.iter().any(|d| matches!(d.severity, Severity::Error)));
    }
}

#[test]
fn warning_filter_keeps_warnings() {
    let index = build_index(scenario(), Severity::Warning);
    assert_eq!(index.len(), 1);
    assert_eq!(index[0].path, b"b.rs".to_vec());
    assert_eq!(index[0].diagnostics.len(), 1);
    assert_eq!(index[0].diagnostics[0].message, lines(&["w"]));
}

#[test]
fn empty_input_gives_empty_index() {
    let index = build_index(Vec::new(), Severity::Error);
    assert!(index.is_empty());
    let cs = CollapseState::all_expanded();
    assert_eq!(total_lines(&index, &cs), 0);
    assert!(matches!(
        hit_test(&index, &cs, 0),
        HitResult::NoTarget { reason: NoTargetReason::PastEnd }
    ));
}

#[test]
fn scenario_spans_and_total() {
    let index = build_index(scenario(), Severity::Error);
    let cs = CollapseState::all_expanded();
    assert_eq!(file_span_rows(&index[0], &cs), 2);
    assert_eq!(file_span_rows(&index[1], &cs), 5);
    assert_eq!(diag_span_rows(&index[1].diagnostics[0]), 4);
    assert_eq!(related_span_rows(&index[1].diagnostics[0].related[0]), 2);
    assert_eq!(total_lines(&index, &cs), 7);
    let (rows, height) = measure(&index, &cs, 25);
    assert_eq!(rows, 7);
    assert_eq!(height, 175);
}

#[test]
fn total_matches_brute_force_sum() {
    let index = build_index(scenario(), Severity::Error);
    let cs = collapsed(&["b.rs"]);
    let mut sum = 0usize;
    for g in &index {
        sum += file_span_rows(g, &cs);
    }
    assert_eq!(total_lines(&index, &cs), sum);
}

#[test]
fn spans_are_deterministic() {
    let index = build_index(scenario(), Severity::Error);
    let cs = CollapseState::all_expanded();
    assert_eq!(file_span_rows(&index[1], &cs), file_span_rows(&index[1], &cs));
    assert_eq!(total_lines(&index, &cs), total_lines(&index, &cs));
}

#[test]
fn collapse_replaces_contribution_with_one_row() {
    let index = build_index(scenario(), Severity::Error);
    let expanded = CollapseState::all_expanded();
    let with_b_collapsed = collapsed(&["b.rs"]);
    let before = total_lines(&index, &expanded);
    let after = total_lines(&index, &with_b_collapsed);
    // span(b) == 5 shrinks to 1, whatever the subtree size
    assert_eq!(before, 7);
    assert_eq!(after, before - 5 + 1);
    // re-expanding restores the original contribution
    assert_eq!(total_lines(&index, &expanded), before);
}

#[test]
fn scenario_clicks_resolve() {
    let index = build_index(scenario(), Severity::Error);
    let cs = CollapseState::all_expanded();
    match hit_test(&index, &cs, 0) {
        HitResult::ToggleCollapse { path } => assert_eq!(path, b"a.rs".to_vec()),
        other => panic!("row 0: {:?}", other),
    }
    match hit_test(&index, &cs, 2) {
        HitResult::ToggleCollapse { path } => assert_eq!(path, b"b.rs".to_vec()),
        other => panic!("row 2: {:?}", other),
    }
    match hit_test(&index, &cs, 3) {
        HitResult::JumpToLocation { path, position } => {
            assert_eq!(path, b"b.rs".to_vec());
            assert_eq!(position, Position { line: 4, character: 0 });
        },
        other => panic!("row 3: {:?}", other),
    }
    match hit_test(&index, &cs, 5) {
        HitResult::JumpToLocation { path, position } => {
            assert_eq!(path, b"c.rs".to_vec());
            assert_eq!(position, Position { line: 7, character: 3 });
        },
        other => panic!("row 5: {:?}", other),
    }
    // the related block's own message row jumps to the same location
    match hit_test(&index, &cs, 6) {
        HitResult::JumpToLocation { path, .. } => assert_eq!(path, b"c.rs".to_vec()),
        other => panic!("row 6: {:?}", other),
    }
    // below the last row nothing is hit
    assert!(matches!(
        hit_test(&index, &cs, 7),
        HitResult::NoTarget { reason: NoTargetReason::PastEnd }
    ));
}

#[test]
fn clicks_shift_after_collapse() {
    let index = build_index(scenario(), Severity::Error);
    let cs = collapsed(&["a.rs"]);
    assert_eq!(total_lines(&index, &cs), 6);
    match hit_test(&index, &cs, 1) {
        HitResult::ToggleCollapse { path } => assert_eq!(path, b"b.rs".to_vec()),
        other => panic!("row 1: {:?}", other),
    }
}

#[test]
fn pixel_click_maps_by_row_height() {
    let index = build_index(scenario(), Severity::Error);
    let cs = CollapseState::all_expanded();
    // pixel 74 at 25 px per row is still row 2
    match hit_test_at(&index, &cs, 74, 25) {
        HitResult::ToggleCollapse { path } => assert_eq!(path, b"b.rs".to_vec()),
        other => panic!("pixel 74: {:?}", other),
    }
    assert_eq!(row_of_y(74, 25), 2);
    assert_eq!(row_of_y(75, 25), 3);
}

#[test]
fn unresolved_related_target_is_absorbed() {
    let input = vec![(
        b"a.rs".to_vec(),
        vec![diag(Severity::Error, 0, &["m"], vec![related(None, 1, 2, &["r"])])],
    )];
    let index = build_index(input, Severity::Error);
    let cs = CollapseState::all_expanded();
    // rows: 0 header, 1 message, 2 related header, 3 related message
    assert!(matches!(
        hit_test(&index, &cs, 2),
        HitResult::NoTarget { reason: NoTargetReason::UnresolvedTarget }
    ));
    // the entry is still rendered, with an empty name
    let out = render(&index, &cs, None, 0, 100, 800, None);
    assert!(out.iter().any(|i| matches!(
        i,
        DrawInstruction::RelatedHeader { row: 2, name, line: 1, character: 2 } if name.is_empty()
    )));
}

#[test]
fn render_emits_expected_sequence() {
    let index = build_index(scenario(), Severity::Error);
    let cs = CollapseState::all_expanded();
    let out = render(&index, &cs, None, 0, 100, 800, None);
    let expected = vec![
        DrawInstruction::FileIcon { row: 0, path: b"a.rs".to_vec() },
        DrawInstruction::FileName { row: 0, name: b"a.rs".to_vec() },
        DrawInstruction::SeverityIcon { row: 1, severity: Severity::Error },
        DrawInstruction::MessageText { row: 1, indent: 2, text: "e1".to_string() },
        DrawInstruction::FileIcon { row: 2, path: b"b.rs".to_vec() },
        DrawInstruction::FileName { row: 2, name: b"b.rs".to_vec() },
        DrawInstruction::SeverityIcon { row: 3, severity: Severity::Error },
        DrawInstruction::MessageText { row: 3, indent: 2, text: "x".to_string() },
        DrawInstruction::MessageText { row: 4, indent: 2, text: "y".to_string() },
        DrawInstruction::LinkIcon { row: 5 },
        DrawInstruction::RelatedHeader { row: 5, name: b"c.rs".to_vec(), line: 7, character: 3 },
        DrawInstruction::MessageText { row: 6, indent: 3, text: "r".to_string() },
    ];
    assert_eq!(out, expected);
}

#[test]
fn render_culls_file_above_but_advances_cursor() {
    let index = build_index(scenario(), Severity::Error);
    let cs = CollapseState::all_expanded();
    // a.rs occupies rows 0 and 1, wholly above a range starting at row 2
    let out = render(&index, &cs, None, 2, 100, 800, None);
    for i in &out {
        if let DrawInstruction::FileIcon { path, .. } = i {
            assert_ne!(path, &b"a.rs".to_vec());
        }
    }
    // b.rs still starts at row 2: the cursor advanced past the culled file
    assert!(matches!(&out[0], DrawInstruction::FileIcon { row: 2, path } if path == &b"b.rs".to_vec()));
}

#[test]
fn render_stops_at_file_below_range() {
    let index = build_index(scenario(), Severity::Error);
    let cs = CollapseState::all_expanded();
    // b.rs starts at row 2, strictly below a range ending at row 1
    let out = render(&index, &cs, None, 0, 1, 800, None);
    for i in &out {
        if let DrawInstruction::FileIcon { path, .. } = i {
            assert_ne!(path, &b"b.rs".to_vec());
        }
        if let DrawInstruction::LinkIcon { .. } = i {
            panic!("related location of b.rs must not be drawn");
        }
    }
    assert!(matches!(&out[0], DrawInstruction::FileIcon { row: 0, path } if path == &b"a.rs".to_vec()));
}

#[test]
fn render_collapsed_file_shows_only_header() {
    let index = build_index(scenario(), Severity::Error);
    let cs = collapsed(&["b.rs"]);
    let out = render(&index, &cs, None, 0, 100, 800, None);
    // b.rs header at row 2, nothing of its subtree
    assert!(out.iter().any(
        |i| matches!(i, DrawInstruction::FileName { row: 2, name } if name == &b"b.rs".to_vec())
    ));
    assert!(!out.iter().any(|i| matches!(i, DrawInstruction::SeverityIcon { row: 3, .. })));
    assert!(!out.iter().any(|i| matches!(i, DrawInstruction::LinkIcon { .. })));
}

#[test]
fn hover_highlights_message_rows_only() {
    let index = build_index(scenario(), Severity::Error);
    let cs = CollapseState::all_expanded();
    // hovering b.rs's second message row highlights its two message rows
    let out = render(&index, &cs, Some(4), 0, 100, 640, None);
    assert!(out.contains(&DrawInstruction::HighlightRect {
        first_row: 3,
        row_count: 2,
        width: 640,
    }));
    // hovering the file header row highlights nothing
    let out = render(&index, &cs, Some(2), 0, 100, 640, None);
    assert!(!out.iter().any(|i| matches!(i, DrawInstruction::HighlightRect { .. })));
}

#[test]
fn hover_highlights_whole_related_block() {
    let index = build_index(scenario(), Severity::Error);
    let cs = CollapseState::all_expanded();
    // the related block of b.rs spans rows 5 and 6, header included
    for hovered in [5usize, 6] {
        let out = render(&index, &cs, Some(hovered), 0, 100, 640, None);
        assert!(out.contains(&DrawInstruction::HighlightRect {
            first_row: 5,
            row_count: 2,
            width: 640,
        }));
    }
}

#[test]
fn folder_label_is_workspace_relative() {
    let input = vec![(
        b"proj/src/a.rs".to_vec(),
        vec![diag(Severity::Error, 0, &["e"], vec![])],
    )];
    let index = build_index(input, Severity::Error);
    let cs = CollapseState::all_expanded();
    let ws = b"proj".to_vec();
    let out = render(&index, &cs, None, 0, 100, 800, Some(&ws));
    assert!(out.iter().any(
        |i| matches!(i, DrawInstruction::FolderLabel { row: 0, folder } if folder == &b"src".to_vec())
    ));
    assert!(out.iter().any(
        |i| matches!(i, DrawInstruction::FileName { row: 0, name } if name == &b"a.rs".to_vec())
    ));
    // without a workspace the full parent shows
    let out = render(&index, &cs, None, 0, 100, 800, None);
    assert!(out.iter().any(
        |i| matches!(i, DrawInstruction::FolderLabel { row: 0, folder } if folder == &b"proj/src".to_vec())
    ));
}

#[test]
fn geometry_helpers_scale_by_row_height() {
    assert_eq!(visible_rows(50, 130, 25), (2, 7));
    assert_eq!(visible_rows(0, 0, 25), (0, 2));
    assert_eq!(scale(3, 25), 75);
}

#[test]
fn clicking_inside_collapsed_file_only_toggles() {
    let input = vec![(b"a.rs".to_vec(), vec![diag(Severity::Error, 0, &["m", "n"], vec![])])];
    let index = build_index(input, Severity::Error);
    let cs = collapsed(&["a.rs"]);
    assert_eq!(total_lines(&index, &cs), 1);
    match hit_test(&index, &cs, 0) {
        HitResult::ToggleCollapse { path } => assert_eq!(path, b"a.rs".to_vec()),
        other => panic!("row 0: {:?}", other),
    }
    assert!(matches!(
        hit_test(&index, &cs, 1),
        HitResult::NoTarget { reason: NoTargetReason::PastEnd }
    ));
}

#[test]
fn index_sorted_for_many_files() {
    let mut input = Vec::new();
    for name in ["z.rs", "m/a.rs", "a.rs", "m.rs", "aa.rs"] {
        input.push((
            name.as_bytes().to_vec(),
            vec![diag(Severity::Error, 0, &["e"], vec![])],
        ));
    }
    let index = build_index(input, Severity::Error);
    let paths: Vec<Vec<u8>> = index.iter().map(|g| g.path.clone()).collect();
    let mut sorted = paths.clone();
    sorted.sort();
    assert_eq!(paths, sorted);
    assert_eq!(paths.len(), 5);
}
