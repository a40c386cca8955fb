use ember_terminal::cell::CellRole;
use ember_terminal::cell::Color;
use ember_terminal::cell::HyperlinkId;
use ember_terminal::cell::TerminalCell;
use ember_terminal::document::RawCellAnchor;
use ember_terminal::grid::RawRowId;
use ember_terminal::history::ScrollbackLine;
use ember_terminal::plan::ProjectionPlan;
use ember_terminal::projection::DisplayPoint;
use ember_terminal::projection::HistoryProjection;
use ember_terminal::projection::ProjectedBufferAnchorLocation;
use ember_terminal::projection::ProjectedRowKind;
use ember_terminal::projection::ProjectionPolicy;
use ember_terminal::projection::ProjectionViewState;
use ember_terminal::state::TerminalState;
use std::collections::VecDeque;

fn emit_completed_block(terminal: &mut TerminalState, index: usize) -> u64 {
    terminal.process_input(
        format!(
            "\x1b]133;A\x07$ \x1b]133;B\x07cmd-{index}\r\n\x1b]133;C\x07out-{index}\r\n\x1b]133;D;0\x07"
        )
        .as_bytes(),
    );
    terminal.command_records().back().unwrap().sequence
}

fn assert_cell_grids_equal(
    actual: &[Vec<TerminalCell>],
    expected: &[Vec<TerminalCell>],
    context: &str,
) {
    assert_eq!(actual.len(), expected.len(), "{context}: row count");
    for (row_index, (actual_row, expected_row)) in actual.iter().zip(expected).enumerate() {
        assert_eq!(
            actual_row.len(),
            expected_row.len(),
            "{context}: column count at row {row_index}"
        );
        for (column_index, (actual_cell, expected_cell)) in
            actual_row.iter().zip(expected_row).enumerate()
        {
            assert_eq!(
                actual_cell.character, expected_cell.character,
                "{context}: character at ({row_index}, {column_index})"
            );
            assert_eq!(
                actual_cell.foreground, expected_cell.foreground,
                "{context}: foreground at ({row_index}, {column_index})"
            );
            assert_eq!(
                actual_cell.background, expected_cell.background,
                "{context}: background at ({row_index}, {column_index})"
            );
            assert_eq!(
                actual_cell.flags, expected_cell.flags,
                "{context}: flags at ({row_index}, {column_index})"
            );
            assert_eq!(
                actual_cell.hyperlink_id, expected_cell.hyperlink_id,
                "{context}: hyperlink at ({row_index}, {column_index})"
            );
        }
    }
}

fn grid_cells(terminal: &TerminalState) -> Vec<Vec<TerminalCell>> {
    terminal.grid.rows.iter().map(|row| row.cells.clone()).collect()
}

fn row_ids(terminal: &TerminalState) -> Vec<RawRowId> {
    terminal.grid.rows.iter().map(|row| row.id).collect()
}

fn copied_line(line: &ScrollbackLine) -> ScrollbackLine {
    let mut copy = ScrollbackLine::compress(&line.decompress(), line.is_wrapped);
    copy.set_raw_row_id(line.raw_row_id());
    copy
}

fn reflow_all(lines: &[ScrollbackLine], cols: usize) -> Vec<ScrollbackLine> {
    let queue: VecDeque<ScrollbackLine> = lines.iter().map(copied_line).collect();
    TerminalState::reflow_lines(&queue, cols, &TerminalCell::default())
}

fn materialize_whole(
    terminal: &TerminalState,
    plan: &ProjectionPlan,
) -> (Vec<Vec<TerminalCell>>, Vec<bool>) {
    let shown = terminal.materialize_projection_plan(plan, 0, plan.rows.len());
    (shown.cells, shown.row_wrapped)
}

fn was_advanced(terminal: &TerminalState) -> bool {
    terminal
        .caches
        .plan
        .as_ref()
        .is_some_and(|cache| cache.plan.incremental_from.is_some())
}

#[test]
fn collapsed_projection_changes_document_without_mutating_raw_terminal() {
    let mut terminal = TerminalState::new(8, 4);
    terminal
        .process_input(b"\x1b]133;A\x07\x1b]133;C;id=fold\x07OUT\r\nMORE\x1b]133;D;0;id=fold\x07");
    let record = terminal.command_records().back().unwrap();
    let zone_id = record.sequence;
    let range = terminal.finished_output_range(zone_id).unwrap();
    let raw_grid: Vec<_> = grid_cells(&terminal);
    let raw_grid_ids = row_ids(&terminal);
    let raw_scrollback_ids: Vec<_> = terminal
        .scrollback
        .iter()
        .map(ScrollbackLine::raw_row_id)
        .collect();
    let raw_scrollback: Vec<_> = terminal
        .scrollback
        .iter()
        .map(ScrollbackLine::decompress)
        .collect();
    let raw_version = terminal.grid_version;
    let mut policy = ProjectionPolicy::new();
    assert!(policy.collapse(zone_id));
    let mut view_state = ProjectionViewState::new();

    let viewport = terminal.projected_viewport_with_state(
        HistoryProjection::identity(),
        true,
        &policy,
        &mut view_state,
    );

    assert!(viewport.is_transformed());
    assert!(viewport.effective_collapsed().contains(&zone_id));
    assert_eq!(
        viewport
            .row_kinds()
            .iter()
            .filter(|kind| matches!(kind, ProjectedRowKind::CollapsedSummary { .. }))
            .count(),
        1
    );
    assert_eq!(
        viewport.display_point_for(RawCellAnchor {
            row_id: range.start.row,
            column: range.start.col,
        }),
        None
    );
    let current_grid: Vec<_> = grid_cells(&terminal);
    assert_cell_grids_equal(&current_grid, &raw_grid, "collapse raw grid");
    assert_eq!(row_ids(&terminal), raw_grid_ids);
    let current_scrollback: Vec<_> = terminal
        .scrollback
        .iter()
        .map(ScrollbackLine::decompress)
        .collect();
    assert_cell_grids_equal(
        &current_scrollback,
        &raw_scrollback,
        "collapse raw scrollback",
    );
    assert_eq!(
        terminal
            .scrollback
            .iter()
            .map(ScrollbackLine::raw_row_id)
            .collect::<Vec<_>>(),
        raw_scrollback_ids
    );
    assert_eq!(terminal.grid_version, raw_version);

    assert!(policy.expand(zone_id));
    let identity = terminal.projected_viewport_with_state(
        HistoryProjection::identity(),
        true,
        &policy,
        &mut view_state,
    );
    let legacy = terminal.get_visible_cells();
    assert!(!identity.is_transformed());
    assert!(std::sync::Arc::ptr_eq(&identity.cells_arc(), &legacy));
}

#[test]
fn same_row_output_suffix_keeps_columns_around_a_hard_summary() {
    let mut terminal = TerminalState::new(12, 4);
    terminal
        .process_input(b"\x1b]133;A\x07P>\x1b]133;C;id=same\x07OUT\x1b]133;D;0;id=same\x07TAIL");
    let zone_id = terminal.command_records().back().unwrap().sequence;
    let range = terminal.finished_output_range(zone_id).unwrap();
    assert_eq!((range.start.col, range.end.col), (2, 5));
    let mut policy = ProjectionPolicy::new();
    policy.collapse(zone_id);
    let mut state = ProjectionViewState::new();
    let bottom = terminal.projected_viewport_with_state(
        HistoryProjection::identity(),
        true,
        &policy,
        &mut state,
    );
    state.set_offset(bottom.max_scroll_offset(), &bottom);
    let viewport = terminal.projected_viewport_with_state(
        HistoryProjection::identity(),
        true,
        &policy,
        &mut state,
    );
    let summary = viewport
        .row_kinds()
        .iter()
        .position(|kind| matches!(kind, ProjectedRowKind::CollapsedSummary { .. }))
        .unwrap();
    assert!(summary > 0 && summary + 1 < viewport.rows());
    assert_eq!(viewport.cells()[summary - 1][0].character, 'P');
    assert_eq!(viewport.cells()[summary - 1][1].character, '>');
    assert_eq!(viewport.cells()[summary + 1][5].character, 'T');
    assert!(!viewport.row_wrapped()[summary]);
    assert_eq!(viewport.raw_anchor_at(DisplayPoint::new(summary, 0)), None);
}

#[test]
fn transformed_selection_copies_only_visible_fragments_across_one_hard_barrier() {
    let mut terminal = TerminalState::new(12, 4);
    terminal
        .process_input(b"\x1b]133;A\x07P>\x1b]133;C;id=same\x07OUT\x1b]133;D;0;id=same\x07TAIL");
    let zone_id = terminal.command_records().back().unwrap().sequence;
    let mut policy = ProjectionPolicy::new();
    assert!(policy.collapse(zone_id));
    let mut state = ProjectionViewState::new();
    let bottom = terminal.projected_viewport_with_state(
        HistoryProjection::identity(),
        true,
        &policy,
        &mut state,
    );
    state.set_offset(bottom.max_scroll_offset(), &bottom);
    let viewport = terminal.projected_viewport_with_state(
        HistoryProjection::identity(),
        true,
        &policy,
        &mut state,
    );
    let summary = viewport
        .row_kinds()
        .iter()
        .position(|kind| matches!(kind, ProjectedRowKind::CollapsedSummary { .. }))
        .unwrap();

    terminal.start_selection_projected(&viewport, (summary - 1, 0));
    terminal.update_selection_projected(&viewport, (summary + 1, 8));

    assert_eq!(terminal.copy_selection().as_deref(), Some("P>\nTAIL"));
    assert_eq!(
        terminal.row_selection_cols_projected(&viewport, summary - 1),
        Some((0, 1))
    );
    assert_eq!(
        terminal.row_selection_cols_projected(&viewport, summary),
        None
    );
    assert_eq!(
        terminal.row_selection_cols_projected(&viewport, summary + 1),
        Some((5, 8))
    );
    assert!(!terminal.copy_selection().unwrap().contains("OUT"));

    terminal.start_selection_projected(&viewport, (summary - 1, 2));
    assert!(!terminal.has_text_selection());
    terminal.start_selection_projected(&viewport, (summary, 0));
    assert!(!terminal.has_text_selection());
}

#[test]
fn transformed_empty_raw_row_selects_but_padding_and_summary_do_not() {
    let mut terminal = TerminalState::new(12, 8);
    terminal.process_input(
        b"\x1b]133;A\x07$ \x1b]133;B\x07one\r\n\x1b]133;C\x07\r\nout\r\n\x1b]133;D;0\x07",
    );
    terminal.process_input(
        b"\x1b]133;A\x07$ \x1b]133;B\x07two\r\n\x1b]133;C\x07hide\r\nmore\r\n\x1b]133;D;0\x07",
    );
    let first_id = terminal.command_records()[0].sequence;
    let blank_id = terminal
        .finished_output_range(first_id)
        .expect("blank output range")
        .start
        .row;
    let hidden_id = terminal.command_records()[1].sequence;
    let mut policy = ProjectionPolicy::new();
    assert!(policy.collapse(hidden_id));
    let mut state = ProjectionViewState::new();
    let viewport = terminal.projected_viewport_with_state(
        HistoryProjection::identity(),
        true,
        &policy,
        &mut state,
    );
    let blank_row = viewport
        .raw_row_view_bounds(blank_id)
        .expect("empty raw row stays addressable")
        .0;
    terminal.start_selection_projected(&viewport, (blank_row, 0));
    terminal.update_selection_projected(&viewport, (blank_row, 5));
    assert_eq!(terminal.copy_selection().as_deref(), Some("      "));

    let summary = viewport
        .row_kinds()
        .iter()
        .position(|kind| matches!(kind, ProjectedRowKind::CollapsedSummary { .. }))
        .unwrap();
    terminal.start_selection_projected(&viewport, (summary, 0));
    assert!(!terminal.has_text_selection());
    if let Some(padding) = viewport
        .row_kinds()
        .iter()
        .position(|kind| matches!(kind, ProjectedRowKind::Padding))
    {
        terminal.start_selection_projected(&viewport, (padding, 0));
        assert!(!terminal.has_text_selection());
    }
}

#[test]
fn transformed_wide_selection_normalizes_continuation_and_highlights_whole_glyph() {
    let mut terminal = TerminalState::new(12, 6);
    terminal.process_input(
        "\x1b]133;A\x07$ \x1b]133;B\x07one\r\n\x1b]133;C\x07中\r\n\x1b]133;D;0\x07".as_bytes(),
    );
    terminal.process_input(
        b"\x1b]133;A\x07$ \x1b]133;B\x07two\r\n\x1b]133;C\x07hide\r\n\x1b]133;D;0\x07",
    );
    let hidden_id = terminal.command_records()[1].sequence;
    let mut policy = ProjectionPolicy::new();
    assert!(policy.collapse(hidden_id));
    let mut state = ProjectionViewState::new();
    let viewport = terminal.projected_viewport_with_state(
        HistoryProjection::identity(),
        true,
        &policy,
        &mut state,
    );
    let (row, body) = viewport
        .cells()
        .iter()
        .enumerate()
        .find_map(|(row, cells)| {
            cells
                .iter()
                .position(|cell| cell.character == '中')
                .map(|col| (row, col))
        })
        .unwrap();
    assert!(viewport.cells()[row][body + 1].flags.wide_continuation());

    terminal.start_selection_projected(&viewport, (row, body + 1));

    assert_eq!(terminal.copy_selection().as_deref(), Some("中"));
    assert_eq!(
        terminal.row_selection_cols_projected(&viewport, row),
        Some((body, body + 1))
    );
}

#[test]
fn transformed_text_selection_reanchors_across_output_plan_updates() {
    let mut terminal = TerminalState::new(24, 8);
    for (command, output) in [("one", "LEFT"), ("two", "SECRET"), ("three", "RIGHT")] {
        terminal.process_input(
            format!(
                "\x1b]133;A\x07$ \x1b]133;B\x07{command}\r\n\x1b]133;C\x07{output}\r\n\x1b]133;D;0\x07"
            )
            .as_bytes(),
        );
    }
    let hidden_id = terminal.command_records()[1].sequence;
    for index in 0..12 {
        terminal.process_input(format!("F{index} filler\r\n").as_bytes());
    }
    terminal.process_input(b"MARKONE\r\nMARKTWO\r\n");

    let mut policy = ProjectionPolicy::new();
    assert!(policy.collapse(hidden_id));
    let mut state = ProjectionViewState::new();
    let viewport = terminal.projected_viewport_with_state(
        HistoryProjection::identity(),
        true,
        &policy,
        &mut state,
    );
    let locate = |needle: char| {
        viewport
            .cells()
            .iter()
            .enumerate()
            .find_map(|(row, cells)| {
                cells
                    .iter()
                    .position(|cell| cell.character == needle)
                    .map(|column| (row, column))
            })
            .expect("visible selection endpoint")
    };
    terminal.start_selection_projected(&viewport, locate('M'));
    terminal.update_selection_projected(&viewport, locate('W'));
    let before = terminal.copy_selection().expect("selection copies");
    assert!(before.contains("MARKONE"));
    assert!(!before.contains("SECRET"));
    drop(viewport);

    terminal.process_input(b"tick\r\n");
    let after_view = terminal.projected_viewport_with_state(
        HistoryProjection::identity(),
        true,
        &policy,
        &mut state,
    );
    assert!(terminal.has_text_selection());
    let after = terminal
        .copy_selection()
        .expect("selection remains copyable");
    assert!(
        after
            .lines()
            .map(str::trim_end)
            .eq(before.lines().map(str::trim_end)),
        "selection retargeted: {before:?} -> {after:?}"
    );
    assert!(!after.contains("SECRET"));
    assert!(after_view.is_transformed());
}

#[test]
fn transformed_block_selection_expands_a_middle_row_wide_continuation() {
    let mut terminal = TerminalState::new(12, 10);
    terminal.process_input(
        "\x1b]133;A\x07$ \x1b]133;B\x07one\r\n\x1b]133;C\x07ab\r\n中x\r\ncd\x1b]133;D;0\x07"
            .as_bytes(),
    );
    terminal.process_input(
        b"\r\n\x1b]133;A\x07$ \x1b]133;B\x07two\r\n\x1b]133;C\x07hide\x1b]133;D;0\x07",
    );
    let hidden_id = terminal.command_records()[1].sequence;
    let mut policy = ProjectionPolicy::new();
    assert!(policy.collapse(hidden_id));
    let mut state = ProjectionViewState::new();
    let viewport = terminal.projected_viewport_with_state(
        HistoryProjection::identity(),
        true,
        &policy,
        &mut state,
    );
    let (middle_row, body) = viewport
        .cells()
        .iter()
        .enumerate()
        .find_map(|(row, cells)| {
            cells
                .iter()
                .position(|cell| cell.character == '中')
                .map(|column| (row, column))
        })
        .unwrap();
    let continuation = body + 1;
    assert!(middle_row > 0 && middle_row + 1 < viewport.rows());
    assert_eq!(
        viewport.cells()[middle_row - 1][continuation].character,
        'b'
    );
    assert!(viewport.cells()[middle_row][continuation]
        .flags
        .wide_continuation());
    assert_eq!(
        viewport.cells()[middle_row + 1][continuation].character,
        'd'
    );

    terminal.start_block_selection_projected(&viewport, (middle_row - 1, continuation));
    terminal.update_selection_projected(&viewport, (middle_row + 1, continuation));

    assert_eq!(terminal.copy_selection().as_deref(), Some("b\n中\nd"));
    assert_eq!(
        terminal.row_selection_cols_projected(&viewport, middle_row),
        Some((body, continuation))
    );
}

#[test]
fn transformed_selection_is_plan_stable_and_fails_closed_after_rebuild() {
    let mut terminal = TerminalState::new(20, 8);
    let ids: Vec<_> = (0..3)
        .map(|index| emit_completed_block(&mut terminal, index))
        .collect();
    let mut first_policy = ProjectionPolicy::new();
    assert!(first_policy.collapse(ids[0]));
    let mut first_state = ProjectionViewState::new();
    let first = terminal.projected_viewport_with_state(
        HistoryProjection::identity(),
        true,
        &first_policy,
        &mut first_state,
    );
    let visible = first
        .cells()
        .iter()
        .enumerate()
        .find_map(|(row, cells)| {
            cells
                .iter()
                .position(|cell| cell.character == 'o')
                .map(|col| (row, col))
        })
        .unwrap();
    terminal.start_selection_projected(&first, visible);
    let selection_revision = terminal.selection_revision();
    let same = terminal.projected_viewport_with_state(
        HistoryProjection::identity_at_revision(99),
        true,
        &first_policy,
        &mut first_state,
    );
    assert_eq!(same.plan_revision(), first.plan_revision());
    assert_eq!(terminal.selection_revision(), selection_revision);
    assert!(terminal.copy_selection().is_some());

    let mut second_policy = ProjectionPolicy::new();
    assert!(second_policy.collapse(ids[1]));
    assert_eq!(second_policy.revision(), first_policy.revision());
    let mut second_state = ProjectionViewState::new();
    let second = terminal.projected_viewport_with_state(
        HistoryProjection::identity(),
        true,
        &second_policy,
        &mut second_state,
    );
    assert_ne!(second.plan_revision(), first.plan_revision());
    assert!(!terminal.has_text_selection());
    assert_eq!(terminal.copy_selection(), None);

    terminal.start_selection_projected(
        &second,
        second
            .cells()
            .iter()
            .enumerate()
            .find_map(|(row, cells)| {
                cells
                    .iter()
                    .position(|cell| cell.character == '$')
                    .map(|col| (row, col))
            })
            .unwrap(),
    );
    terminal.on_resize(20, 7);
    assert_eq!(terminal.copy_selection(), None);
    assert_eq!(
        terminal.row_selection_cols_projected(&second, visible.0),
        None
    );
}

#[test]
fn transformed_and_bypass_selection_spaces_are_mutually_exclusive() {
    let mut terminal = TerminalState::new(16, 6);
    let hidden_id = emit_completed_block(&mut terminal, 0);
    emit_completed_block(&mut terminal, 1);
    let mut policy = ProjectionPolicy::new();
    assert!(policy.collapse(hidden_id));
    let mut state = ProjectionViewState::new();
    let transformed = terminal.projected_viewport_with_state(
        HistoryProjection::identity(),
        true,
        &policy,
        &mut state,
    );
    let real = transformed
        .row_kinds()
        .iter()
        .position(|kind| matches!(kind, ProjectedRowKind::Raw))
        .unwrap();
    terminal.start_selection_projected(&transformed, (real, 0));
    assert!(terminal.has_text_selection());

    let bypass = terminal.projected_viewport_with_state(
        HistoryProjection::identity(),
        false,
        &policy,
        &mut state,
    );
    assert!(!bypass.is_transformed());
    assert!(!terminal.has_text_selection());
    terminal.start_selection_projected(&bypass, (0, 0));
    assert!(terminal.selection.is_some());

    let _transformed_again = terminal.projected_viewport_with_state(
        HistoryProjection::identity(),
        true,
        &policy,
        &mut state,
    );
    assert!(terminal.selection.is_none());
    assert!(!terminal.has_text_selection());
}

#[test]
fn projected_buffer_anchor_reveal_classifies_visible_hidden_and_identity_exactly() {
    let mut terminal = TerminalState::new(16, 4);
    let mut ids = Vec::new();
    let mut anchors = Vec::new();
    for index in 0..8 {
        ids.push(emit_completed_block(&mut terminal, index));
        anchors.push(
            terminal
                .command_records().back()
                .and_then(|record| record.output_start)
                .unwrap(),
        );
    }
    let mut policy = ProjectionPolicy::new();
    assert!(policy.collapse(ids[5]));
    let mut state = ProjectionViewState::new();
    let initial = terminal.projected_viewport_with_state(
        HistoryProjection::identity(),
        true,
        &policy,
        &mut state,
    );
    state.set_offset(1, &initial);
    let before_hidden = state.offset_from_bottom();

    assert_eq!(
        terminal.reveal_buffer_anchor_in_projection(&policy, &mut state, anchors[5]),
        ProjectedBufferAnchorLocation::Hidden { zone_id: ids[5] }
    );
    assert_eq!(state.offset_from_bottom(), before_hidden);

    assert!(terminal.reveal_collapsed_summary(&policy, &mut state, ids[5]));
    let summary_view = terminal.projected_viewport_with_state(
        HistoryProjection::identity(),
        true,
        &policy,
        &mut state,
    );
    assert!(summary_view.row_kinds().iter().any(|kind| {
        matches!(kind, ProjectedRowKind::CollapsedSummary { key, .. } if key.zone_id == ids[5])
    }));

    let raw_scroll_offset = terminal.scroll_offset;
    let ProjectedBufferAnchorLocation::Visible { document_row } =
        terminal.reveal_buffer_anchor_in_projection(&policy, &mut state, anchors[1])
    else {
        panic!("visible raw output should survive the transform");
    };
    assert_eq!(terminal.scroll_offset, raw_scroll_offset);
    let revealed = terminal.projected_viewport_with_state(
        HistoryProjection::identity(),
        true,
        &policy,
        &mut state,
    );
    assert_eq!(
        revealed.document_start(),
        document_row.min(revealed.max_scroll_offset())
    );
    assert!(terminal
        .buffer_anchor_to_projected(&revealed, anchors[1])
        .is_some());

    let mut identity_state = ProjectionViewState::new();
    let identity_policy = ProjectionPolicy::new();
    assert_eq!(
        terminal.reveal_buffer_anchor_in_projection(
            &identity_policy,
            &mut identity_state,
            anchors[1]
        ),
        ProjectedBufferAnchorLocation::Identity
    );
}

#[test]
fn projected_buffer_anchor_reveal_fails_closed_for_a_stale_policy() {
    let mut terminal = TerminalState::new(16, 6);
    let hidden_id = emit_completed_block(&mut terminal, 0);
    let anchor = terminal
        .command_records().back()
        .unwrap()
        .output_start
        .unwrap();
    let mut policy = ProjectionPolicy::new();
    assert!(policy.collapse(hidden_id));
    let mut state = ProjectionViewState::new();
    let viewport = terminal.projected_viewport_with_state(
        HistoryProjection::identity(),
        true,
        &policy,
        &mut state,
    );
    state.set_offset(1, &viewport);
    let before = state.offset_from_bottom();

    terminal.on_resize(16, 5);

    assert_eq!(
        terminal.reveal_buffer_anchor_in_projection(&policy, &mut state, anchor),
        ProjectedBufferAnchorLocation::Unmapped
    );
    assert_eq!(state.offset_from_bottom(), before);
}

#[test]
fn stale_collapse_policy_returns_the_exact_identity_fast_path() {
    let mut terminal = TerminalState::new(8, 3);
    terminal.process_input(b"visible");
    let identity = terminal.projected_viewport(HistoryProjection::identity(), true);
    let mut policy = ProjectionPolicy::new();
    policy.collapse(u64::MAX - 1);
    let mut state = ProjectionViewState::new();
    let stale = terminal.projected_viewport_with_state(
        HistoryProjection::identity(),
        true,
        &policy,
        &mut state,
    );
    assert!(!stale.is_transformed());
    assert_eq!(stale.key(), identity.key());
    assert!(std::sync::Arc::ptr_eq(
        &stale.cells_arc(),
        &identity.cells_arc()
    ));
    assert!(terminal.caches.plan.is_none());
    assert_eq!(terminal.caches.next_plan_revision, 1);
}

#[test]
fn live_collapse_after_csi_3j_uses_the_monotonic_grid_source_base() {
    let mut terminal = TerminalState::new(12, 6);
    for index in 0..12 {
        terminal.process_input(format!("old-{index}\r\n").as_bytes());
    }
    assert!(terminal.total_lines_scrolled > 0);
    terminal.process_input(b"\x1b[3J\x1b[1;1H");
    assert!(terminal.scrollback.is_empty());

    let zone_id = emit_completed_block(&mut terminal, 0);
    assert!(terminal.scrollback.is_empty());
    let mut policy = ProjectionPolicy::new();
    assert!(policy.collapse(zone_id));
    let viewport = terminal.projected_viewport_with_state(
        HistoryProjection::identity(),
        true,
        &policy,
        &mut ProjectionViewState::new(),
    );

    assert!(viewport.is_transformed());
    assert!(viewport.effective_collapsed().contains(&zone_id));
}

#[test]
fn streamed_ineffective_collapse_stays_on_the_identity_fast_path() {
    let mut terminal = TerminalState::new(8, 3);
    terminal.process_input(
        b"xx\x1b[5G\x1b]133;A\x07\x1b]133;C;id=trimmed\x07  \x1b]133;D;0;id=trimmed\x07",
    );
    let zone_id = terminal.command_record("trimmed").unwrap().sequence;
    terminal.process_input(b"\r\none\r\ntwo\r\nthree\r\n");
    assert!(terminal.finished_output_range(zone_id).is_some());

    let mut policy = ProjectionPolicy::new();
    assert!(policy.collapse(zone_id));
    let mut state = ProjectionViewState::new();
    let before = terminal.projected_viewport_with_state(
        HistoryProjection::identity(),
        true,
        &policy,
        &mut state,
    );
    assert!(!before.is_transformed());
    assert!(terminal.caches.plan.is_some());
    assert_eq!(terminal.caches.next_plan_revision, 1);

    terminal.process_input(b"four\r\n");
    let after = terminal.projected_viewport_with_state(
        HistoryProjection::identity(),
        true,
        &policy,
        &mut state,
    );
    assert!(!after.is_transformed());
    assert_eq!(
        terminal.caches.next_plan_revision, 1,
        "an incrementally advanced ineffective plan must remain identity"
    );
}

#[test]
fn transformed_plan_and_viewport_caches_have_independent_exact_keys() {
    let mut terminal = TerminalState::new(12, 4);
    let zone_ids: Vec<_> = (0..6)
        .map(|index| emit_completed_block(&mut terminal, index))
        .collect();
    let mut first_policy = ProjectionPolicy::new();
    assert!(first_policy.collapse(zone_ids[1]));
    let mut first_state = ProjectionViewState::new();

    let first = terminal.projected_viewport_with_state(
        HistoryProjection::identity(),
        true,
        &first_policy,
        &mut first_state,
    );
    let cached = terminal.projected_viewport_with_state(
        HistoryProjection::identity(),
        true,
        &first_policy,
        &mut first_state,
    );
    assert!(std::sync::Arc::ptr_eq(
        &first.cells_arc(),
        &cached.cells_arc()
    ));

    first_state.scroll(1, &cached);
    let scrolled = terminal.projected_viewport_with_state(
        HistoryProjection::identity(),
        true,
        &first_policy,
        &mut first_state,
    );
    assert_eq!(scrolled.plan_revision(), first.plan_revision());
    assert_eq!(terminal.caches.next_plan_revision, 2);
    assert!(!std::sync::Arc::ptr_eq(
        &cached.cells_arc(),
        &scrolled.cells_arc()
    ));

    terminal.process_batch(b"!");
    let repainted = terminal.projected_viewport_with_state(
        HistoryProjection::identity(),
        true,
        &first_policy,
        &mut first_state,
    );
    assert_eq!(
        terminal.caches.next_plan_revision,
        2,
        "ordinary cell paint invalidates only the viewport slice"
    );
    assert!(!std::sync::Arc::ptr_eq(
        &scrolled.cells_arc(),
        &repainted.cells_arc()
    ));

    let mut second_policy = ProjectionPolicy::new();
    assert!(second_policy.collapse(zone_ids[3]));
    assert_eq!(second_policy.revision(), first_policy.revision());
    let mut second_state = ProjectionViewState::new();
    let second = terminal.projected_viewport_with_state(
        HistoryProjection::identity(),
        true,
        &second_policy,
        &mut second_state,
    );
    assert_eq!(terminal.caches.next_plan_revision, 3);
    assert_eq!(
        second.effective_collapsed(),
        &vec![zone_ids[3]]
    );

    let last = terminal.grid.rows() - 1;
    terminal.grid.rows[last].wrapped = !terminal.grid.rows[last].wrapped;
    let _rewrapped = terminal.projected_viewport_with_state(
        HistoryProjection::identity(),
        true,
        &second_policy,
        &mut second_state,
    );
    assert_eq!(
        terminal.caches.next_plan_revision,
        4,
        "the exact live wrap vector is part of plan topology"
    );
}

#[test]
fn collapsed_plan_advances_streaming_history_without_rescanning_it() {
    let mut terminal = TerminalState::new(16, 4);
    terminal.set_max_scrollback(20_000);
    let zone_id = emit_completed_block(&mut terminal, 0);
    for index in 0..10_000 {
        terminal.process_input(format!("history-{index}\r\n").as_bytes());
    }
    let mut policy = ProjectionPolicy::new();
    assert!(policy.collapse(zone_id));
    let mut state = ProjectionViewState::new();
    let before = terminal.projected_viewport_with_state(
        HistoryProjection::identity(),
        true,
        &policy,
        &mut state,
    );
    assert!(before.is_transformed());

    terminal.process_input(b"next\r\n");
    let after = terminal.projected_viewport_with_state(
        HistoryProjection::identity(),
        true,
        &policy,
        &mut state,
    );
    assert!(after.is_transformed());
    assert!(
        was_advanced(&terminal),
        "one streamed row must not rebuild the document"
    );
    assert_eq!(after.cells().len(), before.cells().len());

    let incremental_cells = after.cells().to_vec();
    let mut incremental_origins = Vec::new();
    for row in 0..after.rows() {
        for column in 0..after.columns() {
            incremental_origins.push(after.raw_anchor_at(DisplayPoint::new(row, column)));
        }
    }
    assert!(policy.expand(zone_id));
    assert!(policy.collapse(zone_id));
    let rebuilt = terminal.projected_viewport_with_state(
        HistoryProjection::identity(),
        true,
        &policy,
        &mut ProjectionViewState::new(),
    );
    assert_cell_grids_equal(
        rebuilt.cells(),
        incremental_cells.as_slice(),
        "incremental append matches forced rebuild",
    );
    let mut rebuilt_origins = Vec::new();
    for row in 0..rebuilt.rows() {
        for column in 0..rebuilt.columns() {
            rebuilt_origins.push(rebuilt.raw_anchor_at(DisplayPoint::new(row, column)));
        }
    }
    assert_eq!(rebuilt_origins, incremental_origins);
}

#[test]
fn collapsed_plan_advances_more_than_one_viewport_per_input_batch() {
    let mut terminal = TerminalState::new(16, 4);
    terminal.set_max_scrollback(20_000);
    let zone_id = emit_completed_block(&mut terminal, 0);
    for index in 0..1_000 {
        terminal.process_input(format!("history-{index}\r\n").as_bytes());
    }
    let mut policy = ProjectionPolicy::new();
    assert!(policy.collapse(zone_id));
    let mut state = ProjectionViewState::new();
    let _ = terminal.projected_viewport_with_state(
        HistoryProjection::identity(),
        true,
        &policy,
        &mut state,
    );

    terminal.process_batch(b"a\r\nb\r\nc\r\nd\r\ne\r\nf\r\ng\r\nh\r\n");
    let incremental = terminal.projected_viewport_with_state(
        HistoryProjection::identity(),
        true,
        &policy,
        &mut state,
    );
    assert!(was_advanced(&terminal));

    let incremental_cells = incremental.cells().to_vec();
    let mut incremental_origins = Vec::new();
    for row in 0..incremental.rows() {
        for column in 0..incremental.columns() {
            incremental_origins.push(incremental.raw_anchor_at(DisplayPoint::new(row, column)));
        }
    }
    assert!(policy.expand(zone_id));
    assert!(policy.collapse(zone_id));
    let rebuilt = terminal.projected_viewport_with_state(
        HistoryProjection::identity(),
        true,
        &policy,
        &mut ProjectionViewState::new(),
    );
    assert_cell_grids_equal(
        rebuilt.cells(),
        incremental_cells.as_slice(),
        "multi-viewport incremental append matches forced rebuild",
    );
    let mut rebuilt_origins = Vec::new();
    for row in 0..rebuilt.rows() {
        for column in 0..rebuilt.columns() {
            rebuilt_origins.push(rebuilt.raw_anchor_at(DisplayPoint::new(row, column)));
        }
    }
    assert_eq!(rebuilt_origins, incremental_origins);
}

#[test]
fn collapsed_plan_rebuilds_when_batch_eviction_exceeds_old_history() {
    let mut terminal = TerminalState::new(12, 12);
    terminal.set_max_scrollback(3);
    terminal
        .process_input(b"\x1b[9;1H\x1b]133;A\x07\x1b]133;C;id=kept\x07OUT\x1b]133;D;0;id=kept\x07");
    let zone_id = terminal.command_record("kept").unwrap().sequence;
    assert_eq!(terminal.scrollback_len(), 0);

    let mut policy = ProjectionPolicy::new();
    assert!(policy.collapse(zone_id));
    let mut state = ProjectionViewState::new();
    let before = terminal.projected_viewport_with_state(
        HistoryProjection::identity(),
        true,
        &policy,
        &mut state,
    );
    assert!(before.is_transformed());
    drop(before);

    let total_before = terminal.total_lines_scrolled;
    terminal.process_batch(b"\r\n0\r\n1\r\n2\r\n3\r\n4\r\n5\r\n6\r\n7\r\n");
    let appended = terminal.total_lines_scrolled - total_before;
    assert!(appended as usize > terminal.max_scrollback());
    assert_eq!(terminal.scrollback_len(), terminal.max_scrollback());
    assert!(terminal.finished_output_range(zone_id).is_some());

    let after = terminal.projected_viewport_with_state(
        HistoryProjection::identity(),
        true,
        &policy,
        &mut state,
    );
    assert!(after.is_transformed());
    assert!(
        !was_advanced(&terminal),
        "evicting newly transferred grid rows must fall back to a full plan"
    );
    let fallback_cells = after.cells().to_vec();
    let fallback_kinds = after.row_kinds().to_vec();
    let fallback_document_rows = after.document_rows();
    let mut fallback_origins = Vec::new();
    for row in 0..after.rows() {
        for column in 0..after.columns() {
            fallback_origins.push(after.raw_anchor_at(DisplayPoint::new(row, column)));
        }
    }

    terminal.caches.plan = None;
    terminal.caches.transformed = None;
    let rebuilt = terminal.projected_viewport_with_state(
        HistoryProjection::identity(),
        true,
        &policy,
        &mut ProjectionViewState::new(),
    );
    assert_cell_grids_equal(
        rebuilt.cells(),
        fallback_cells.as_slice(),
        "small-capacity fallback matches an independent full rebuild",
    );
    assert_eq!(rebuilt.row_kinds(), fallback_kinds.as_slice());
    assert_eq!(rebuilt.document_rows(), fallback_document_rows);
    let mut rebuilt_origins = Vec::new();
    for row in 0..rebuilt.rows() {
        for column in 0..rebuilt.columns() {
            rebuilt_origins.push(rebuilt.raw_anchor_at(DisplayPoint::new(row, column)));
        }
    }
    assert_eq!(rebuilt_origins, fallback_origins);
}

#[test]
fn collapsed_plan_advances_across_capped_front_trim_with_exact_origins() {
    let mut terminal = TerminalState::new(12, 3);
    terminal.set_max_scrollback(64);
    for index in 0..40 {
        terminal.process_input(format!("prefix-{index}\r\n").as_bytes());
    }
    let zone_id = emit_completed_block(&mut terminal, 0);
    for index in 0..30 {
        terminal.process_input(format!("suffix-{index}\r\n").as_bytes());
    }
    let mut policy = ProjectionPolicy::new();
    assert!(policy.collapse(zone_id));
    let mut state = ProjectionViewState::new();
    let _before = terminal.projected_viewport_with_state(
        HistoryProjection::identity(),
        true,
        &policy,
        &mut state,
    );
    let retained_before: Vec<_> = terminal
        .scrollback
        .iter()
        .map(ScrollbackLine::raw_row_id)
        .collect();

    terminal.process_input(b"trimmed-tail\r\n");
    let after = terminal.projected_viewport_with_state(
        HistoryProjection::identity(),
        true,
        &policy,
        &mut state,
    );
    assert!(was_advanced(&terminal));
    assert_ne!(
        terminal.scrollback.front().map(ScrollbackLine::raw_row_id),
        retained_before.first().copied()
    );
    for row in 0..after.rows() {
        if let Some(raw) = after.raw_anchor_at(DisplayPoint::new(row, 0)) {
            assert!(
                terminal
                    .scrollback
                    .iter()
                    .any(|line| line.raw_row_id() == raw.row_id)
                    || row_ids(&terminal).contains(&raw.row_id)
            );
        }
    }
    let incremental_cells = after.cells().to_vec();
    let mut incremental_origins = Vec::new();
    for row in 0..after.rows() {
        for column in 0..after.columns() {
            incremental_origins.push(after.raw_anchor_at(DisplayPoint::new(row, column)));
        }
    }
    assert!(policy.expand(zone_id));
    assert!(policy.collapse(zone_id));
    let rebuilt = terminal.projected_viewport_with_state(
        HistoryProjection::identity(),
        true,
        &policy,
        &mut ProjectionViewState::new(),
    );
    assert_cell_grids_equal(
        rebuilt.cells(),
        incremental_cells.as_slice(),
        "capped incremental append matches forced rebuild",
    );
    let mut rebuilt_origins = Vec::new();
    for row in 0..rebuilt.rows() {
        for column in 0..rebuilt.columns() {
            rebuilt_origins.push(rebuilt.raw_anchor_at(DisplayPoint::new(row, column)));
        }
    }
    assert_eq!(rebuilt_origins, incremental_origins);
}

#[test]
fn transformed_materializer_decodes_each_visible_history_source_once() {
    let mut terminal = TerminalState::new(12, 3);
    terminal
        .process_input(b"\x1b]133;A\x07P>\x1b]133;C;id=same\x07OUT\x1b]133;D;0;id=same\x07TAIL");
    let zone_id = terminal.command_records().back().unwrap().sequence;
    terminal.process_input(b"\r\n\r\n\r\n");
    assert_eq!(terminal.scrollback.len(), 1);

    let mut policy = ProjectionPolicy::new();
    assert!(policy.collapse(zone_id));
    let mut state = ProjectionViewState::new();
    let bottom = terminal.projected_viewport_with_state(
        HistoryProjection::identity(),
        true,
        &policy,
        &mut state,
    );
    state.set_offset(bottom.max_scroll_offset(), &bottom);
    let top = terminal.projected_viewport_with_state(
        HistoryProjection::identity(),
        true,
        &policy,
        &mut state,
    );

    assert!(matches!(
        top.row_kinds()[1],
        ProjectedRowKind::CollapsedSummary { .. }
    ));
    assert_eq!(top.cells()[0][0].character, 'P');
    assert_eq!(top.cells()[2][5].character, 'T');
}

#[test]
fn projection_view_state_preserves_bottom_and_summary_anchor_across_rebuilds() {
    let mut terminal = TerminalState::new(12, 4);
    let zone_ids: Vec<_> = (0..8)
        .map(|index| emit_completed_block(&mut terminal, index))
        .collect();
    let target = zone_ids[3];
    let range = terminal.finished_output_range(target).unwrap();
    let mut policy = ProjectionPolicy::new();
    assert!(policy.collapse(target));
    let mut state = ProjectionViewState::new();

    let bottom = terminal.projected_viewport_with_state(
        HistoryProjection::identity(),
        true,
        &policy,
        &mut state,
    );
    assert_eq!(bottom.scroll_offset(), 0);
    emit_completed_block(&mut terminal, 99);
    let appended = terminal.projected_viewport_with_state(
        HistoryProjection::identity(),
        true,
        &policy,
        &mut state,
    );
    assert_eq!(
        appended.scroll_offset(),
        0,
        "bottom follows appended output"
    );

    let mut summary_top = None;
    let mut viewport = appended;
    for offset in 0..=viewport.max_scroll_offset() {
        state.set_offset(offset, &viewport);
        viewport = terminal.projected_viewport_with_state(
            HistoryProjection::identity(),
            true,
            &policy,
            &mut state,
        );
        if matches!(
            viewport.row_kinds()[viewport.top_padding()],
            ProjectedRowKind::CollapsedSummary { key, .. } if key.zone_id == target
        ) {
            summary_top = Some(viewport.copy());
            break;
        }
    }
    let summary_top = summary_top.expect("summary can be placed at the viewport top");
    let parked_offset = state.offset_from_bottom();
    let bypass = terminal.projected_viewport_with_state(
        HistoryProjection::identity(),
        false,
        &policy,
        &mut state,
    );
    assert!(bypass.key().is_bypass());
    assert_eq!(state.offset_from_bottom(), parked_offset);
    let resumed = terminal.projected_viewport_with_state(
        HistoryProjection::identity(),
        true,
        &policy,
        &mut state,
    );
    assert!(matches!(
        resumed.row_kinds()[resumed.top_padding()],
        ProjectedRowKind::CollapsedSummary { key, .. } if key.zone_id == target
    ));
    assert_eq!(resumed.document_start(), summary_top.document_start());

    assert!(policy.expand(target));
    let expanded = terminal.projected_viewport_with_state(
        HistoryProjection::identity(),
        true,
        &policy,
        &mut state,
    );
    assert!(!expanded.is_transformed());
    assert_eq!(
        expanded
            .display_point_for(RawCellAnchor {
                row_id: range.start.row,
                column: range.start.col,
            })
            .map(|point| point.row),
        Some(0),
        "expanding a top summary restores its first raw output row"
    );
}

#[test]
fn identity_full_document_plan_matches_legacy_bytes_for_non_wide_reflow() {
    let mut terminal = TerminalState::new(8, 3);
    let mut linked_blank = vec![TerminalCell::default(); 8];
    linked_blank[0].character = 'a';
    linked_blank[1].character = 'b';
    let hyperlink = HyperlinkId::from_raw(1);
    linked_blank[4].hyperlink_id = hyperlink;
    terminal.push_scrollback_compressed(ScrollbackLine::compress(&linked_blank, true));
    let mut tail = vec![TerminalCell::default(); 8];
    tail[0].character = 'c';
    tail[1].background = Color::Blue;
    terminal.push_scrollback_compressed(ScrollbackLine::compress(&tail, false));
    terminal.process_input(b"GRID");

    let plan = terminal.identity_projection_plan(8);
    let (materialized, wrapped) = materialize_whole(&terminal, &plan);

    assert_eq!(materialized.len(), plan.rows.len());
    assert_eq!(wrapped.len(), materialized.len());
    assert_eq!(materialized.last().unwrap()[0].character, ' ');
    assert!(materialized
        .iter()
        .flatten()
        .any(|cell| cell.hyperlink_id == hyperlink));
    assert!(materialized
        .iter()
        .flatten()
        .any(|cell| cell.background == Color::Blue));
}

#[test]
fn identity_full_document_plan_is_linear_and_does_not_decode_deep_history() {
    let mut terminal = TerminalState::new(80, 2);
    terminal.set_max_scrollback(10_001);
    let mut cells = vec![TerminalCell::default(); 80];
    cells[0].character = 'x';
    cells[0].foreground = Color::Red;
    for _ in 0..10_000 {
        terminal.push_scrollback_compressed(ScrollbackLine::compress(&cells, false));
    }

    let plan = terminal.identity_projection_plan(80);

    let slices: usize = plan.rows.iter().map(|row| row.slices.len()).sum();
    assert_eq!(plan.history_ids.len(), 10_000);
    assert!(plan.rows.len() + plan.history_ids.len() + slices <= 30_010);
}

#[test]
fn identity_full_document_plan_matches_eager_history_and_grid_across_widths() {
    for cols in [3, 4, 5, 8] {
        let mut terminal = TerminalState::new(cols, 2);

        let mut first = vec![TerminalCell::default(); 8];
        first[0].character = 'A';
        first[1].character = '界';
        first[1].flags.role = CellRole::Wide;
        first[2].flags.role = CellRole::Continuation;
        first[5].hyperlink_id = HyperlinkId::from_raw(1);

        let mut second = vec![TerminalCell::default(); 8];
        second[0].character = 'B';
        second[1].character = 'C';
        second[4].background = Color::Blue;
        second[7].foreground = Color::Red;

        let mut untracked = vec![TerminalCell::default(); 8];
        untracked[0].character = 'U';
        let history = vec![
            ScrollbackLine::compress(&first, true),
            ScrollbackLine::compress(&second, false),
            ScrollbackLine::compress(&vec![TerminalCell::default(); 8], false),
            ScrollbackLine::compress(&untracked, true),
        ];
        for line in history.iter().map(copied_line) {
            terminal.push_scrollback_compressed(line);
        }
        terminal.scrollback[3].set_raw_row_id(RawRowId::untracked());
        terminal.grid.rows[0].cells[0].character = 'G';
        terminal.grid.rows[1].cells[0].character = 'H';
        terminal.grid.rows[0].wrapped = true;
        terminal.grid.rows[1].id = RawRowId::untracked();

        let plan = terminal.identity_projection_plan(cols);
        let (actual, actual_wrapped) = materialize_whole(&terminal, &plan);

        let eager_history = reflow_all(&history, cols);
        let mut expected: Vec<_> = eager_history
            .iter()
            .map(ScrollbackLine::decompress)
            .collect();
        let mut expected_wrapped: Vec<_> =
            eager_history.iter().map(|line| line.is_wrapped).collect();
        let grid_start = expected.len();
        expected.extend(terminal.grid.rows.iter().map(|row| row.cells.clone()));
        expected_wrapped.extend(terminal.grid.rows.iter().map(|row| row.wrapped));

        assert_cell_grids_equal(&actual, &expected, &format!("identity plan width {cols}"));
        assert_eq!(actual_wrapped, expected_wrapped, "wrapped width {cols}");
        assert_eq!(actual[grid_start][0].character, 'G');
        assert_eq!(actual[grid_start + 1][0].character, 'H');

        for absolute_row in [3, terminal.scrollback.len() + 1] {
            let slices: Vec<_> = plan
                .rows
                .iter()
                .flat_map(|row| &row.slices)
                .filter(|slice| slice.line == absolute_row as u64)
                .collect();
            assert!(!slices.is_empty(), "UNTRACKED source {absolute_row}");
            assert!(slices.iter().all(|slice| !slice.row.is_tracked()));
        }
    }
}

#[test]
fn identity_full_document_plan_materializes_a_narrow_wide_body() {
    let mut terminal = TerminalState::new(1, 1);
    let mut history = vec![TerminalCell::default(); 4];
    history[0].character = '界';
    history[0].flags.role = CellRole::Wide;
    history[1].flags.role = CellRole::Continuation;
    history[2].character = 'Z';
    history[3].hyperlink_id = HyperlinkId::from_raw(1);
    terminal.push_scrollback_compressed(ScrollbackLine::compress(&history, false));
    terminal.scrollback[0].set_raw_row_id(RawRowId::untracked());
    terminal.grid.rows[0].cells[0].character = 'G';

    let plan = terminal.identity_projection_plan(1);
    let (actual, wrapped) = materialize_whole(&terminal, &plan);

    assert_eq!(actual.len(), 4);
    assert_eq!(actual[0][0].character, '界');
    assert!(!actual[0][0].flags.wide());
    assert!(!actual[0][0].flags.wide_continuation());
    assert_eq!(actual[1][0].character, 'Z');
    assert_eq!(actual[2][0].hyperlink_id, HyperlinkId::from_raw(1));
    assert_eq!(actual[3][0].character, 'G');
    assert_eq!(wrapped, vec![true, true, false, false]);
    assert!(plan
        .rows
        .iter()
        .take(3)
        .flat_map(|row| &row.slices)
        .all(|slice| !slice.row.is_tracked()));
}
