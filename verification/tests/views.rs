use ember_terminal::cell::Color;
use ember_terminal::cell::StyleFlags;
use ember_terminal::cell::TerminalCell;
use ember_terminal::document::RawCellAnchor;
use ember_terminal::grid::RawRowId;
use ember_terminal::history::ScrollbackLine;
use ember_terminal::projection::DisplayPoint;
use ember_terminal::projection::HistoryProjection;
use ember_terminal::state::TerminalState;

fn assert_cell_grids_equal(
    actual: &[Vec<TerminalCell>],
    expected: &[Vec<TerminalCell>],
    context: &str,
) {
    assert_eq!(actual.len(), expected.len(), "{context}: row count");
    for (row_index, (actual_row, expected_row)) in actual.iter().zip(expected).enumerate() {
        assert_eq!(
            actual_row.len(),
            expected_row.len(),
            "{context}: column count at row {row_index}"
        );
        for (column_index, (actual_cell, expected_cell)) in
            actual_row.iter().zip(expected_row).enumerate()
        {
            assert_eq!(
                actual_cell.character, expected_cell.character,
                "{context}: character at ({row_index}, {column_index})"
            );
            assert_eq!(
                actual_cell.foreground, expected_cell.foreground,
                "{context}: foreground at ({row_index}, {column_index})"
            );
            assert_eq!(
                actual_cell.background, expected_cell.background,
                "{context}: background at ({row_index}, {column_index})"
            );
            assert_eq!(
                actual_cell.flags, expected_cell.flags,
                "{context}: flags at ({row_index}, {column_index})"
            );
            assert_eq!(
                actual_cell.hyperlink_id, expected_cell.hyperlink_id,
                "{context}: hyperlink at ({row_index}, {column_index})"
            );
        }
    }
}

fn text_line(text: &str, cols: usize, wrapped: bool) -> ScrollbackLine {
    let mut cells = vec![TerminalCell::default(); cols];
    for (cell, ch) in cells.iter_mut().zip(text.chars()) {
        cell.character = ch;
    }
    ScrollbackLine::compress(&cells, wrapped)
}

fn tagged_line(tag: char) -> ScrollbackLine {
    let mut cells = vec![TerminalCell::default(); 4];
    cells[0].character = tag;
    ScrollbackLine::compress(&cells, false)
}

fn row_ids(terminal: &TerminalState) -> Vec<RawRowId> {
    terminal.grid.rows.iter().map(|row| row.id).collect()
}

fn populated() -> TerminalState {
    let mut terminal = TerminalState::new(8, 3);
    terminal.process_input(b"one\r\ntwo\r\nthree\r\nfour");
    terminal.scroll(1);
    terminal
}

#[test]
fn identity_projection_reuses_visible_cells_and_versions_only_its_metadata() {
    let mut terminal = TerminalState::new(5, 2);
    terminal.process_input(b"hello");
    let legacy = terminal.get_visible_cells();

    let first = terminal.projected_viewport(HistoryProjection::identity(), true);
    assert!(std::sync::Arc::ptr_eq(&legacy, &first.cells_arc()));
    assert!(!first.key().is_bypass());
    assert_eq!(first.cells()[0][0].character, 'h');
    assert_eq!(first.cursor(), DisplayPoint::new(0, 4));

    let cached = terminal.projected_viewport(HistoryProjection::identity(), true);
    assert_eq!(cached.key(), first.key());
    assert!(std::sync::Arc::ptr_eq(
        &first.cells_arc(),
        &cached.cells_arc()
    ));

    let revised = terminal.projected_viewport(HistoryProjection::identity_at_revision(7), true);
    assert_ne!(revised.key(), first.key());
    assert_eq!(revised.key().projection_revision, 7);
    assert!(std::sync::Arc::ptr_eq(
        &first.cells_arc(),
        &revised.cells_arc()
    ));

    let bypass = terminal.projected_viewport(HistoryProjection::identity(), false);
    assert!(bypass.key().is_bypass());
    assert_cell_grids_equal(bypass.cells(), legacy.as_ref(), "block-off bypass");
}

#[test]
fn identity_projection_live_origins_round_trip_each_physical_wide_cell() {
    let mut terminal = TerminalState::new(4, 2);
    terminal.process_input("点x".as_bytes());
    let row_id = terminal.grid.row_id(0);
    let viewport = terminal.projected_viewport(HistoryProjection::identity(), true);

    for column in 0..3 {
        let display = DisplayPoint::new(0, column);
        let raw = viewport
            .raw_anchor_at(display)
            .expect("live grid cell should have an origin");
        assert_eq!(raw, RawCellAnchor { row_id, column });
        assert_eq!(viewport.display_point_for(raw), Some(display));
    }
    assert!(viewport.cells()[0][1].flags.wide_continuation());
    assert_eq!(
        viewport.raw_anchor_at(DisplayPoint::new(0, 1)),
        Some(RawCellAnchor { row_id, column: 1 })
    );
}

#[test]
fn identity_projection_reflow_preserves_raw_origins_and_rejects_padding() {

    let mut terminal = TerminalState::new(3, 3);
    terminal.push_scrollback_compressed(text_line("abc", 4, true));
    terminal.push_scrollback_compressed(text_line("de", 4, false));
    let first_id = terminal.scrollback[0].raw_row_id();
    let second_id = terminal.scrollback[1].raw_row_id();
    let live_id = terminal.grid.row_id(0);
    terminal.scroll_offset = 2;

    let legacy = terminal.get_visible_cells();
    let viewport = terminal.projected_viewport(HistoryProjection::identity(), true);
    assert_cell_grids_equal(viewport.cells(), legacy.as_ref(), "historical identity");
    assert_eq!(
        viewport.cells()[0]
            .iter()
            .map(|cell| cell.character)
            .collect::<String>(),
        "abc"
    );
    assert_eq!(
        viewport.cells()[1]
            .iter()
            .map(|cell| cell.character)
            .collect::<String>(),
        "de "
    );

    for column in 0..3 {
        let display = DisplayPoint::new(0, column);
        let raw = RawCellAnchor {
            row_id: first_id,
            column,
        };
        assert_eq!(viewport.raw_anchor_at(display), Some(raw));
        assert_eq!(viewport.display_point_for(raw), Some(display));
    }
    for column in 0..2 {
        let display = DisplayPoint::new(1, column);
        let raw = RawCellAnchor {
            row_id: second_id,
            column,
        };
        assert_eq!(viewport.raw_anchor_at(display), Some(raw));
        assert_eq!(viewport.display_point_for(raw), Some(display));
    }
    assert_eq!(viewport.raw_anchor_at(DisplayPoint::new(1, 2)), None);
    assert_eq!(
        viewport.display_point_for(RawCellAnchor {
            row_id: second_id,
            column: 2
        }),
        None
    );

    assert_eq!(
        viewport.raw_anchor_at(DisplayPoint::new(2, 2)),
        Some(RawCellAnchor {
            row_id: live_id,
            column: 2
        })
    );
}

#[test]
fn identity_projection_matches_legacy_and_round_trips_across_widths_and_offsets() {

    for width in [2, 3, 5, 8] {
        let mut terminal = TerminalState::new(6, 4);
        terminal.push_scrollback_compressed(text_line("abcdef", 6, true));
        terminal.push_scrollback_compressed(text_line("ghi", 6, false));
        terminal.push_scrollback_compressed(text_line("jklmno", 6, true));
        terminal.push_scrollback_compressed(text_line("pq", 6, false));
        terminal.on_resize(width, 4);

        for offset in 0..=terminal.scrollback.len() {
            terminal.scroll_offset = offset;
            let legacy = terminal.get_visible_cells();
            let viewport = terminal.projected_viewport(HistoryProjection::identity(), true);
            assert_cell_grids_equal(
                viewport.cells(),
                legacy.as_ref(),
                &format!("identity width={width} offset={offset}"),
            );

            for row in 0..viewport.rows() {
                for column in 0..viewport.columns() {
                    let display = DisplayPoint::new(row, column);
                    if let Some(raw) = viewport.raw_anchor_at(display) {
                        assert_eq!(
                            viewport.display_point_for(raw),
                            Some(display),
                            "origin roundtrip width={width} offset={offset} at {row}:{column}"
                        );
                    }
                }
            }
        }
    }
}

#[test]
fn identity_projection_alt_screen_bypasses_semantics_and_maps_only_active_origins() {
    let mut terminal = TerminalState::new(4, 2);
    terminal.process_input(b"primary");
    let primary_id = terminal.grid.row_id(0);
    terminal.process_input(b"\x1b[?1049hALT");
    let alt_id = terminal.grid.row_id(0);

    let viewport = terminal.projected_viewport(HistoryProjection::identity(), true);
    assert!(viewport.key().is_bypass());
    assert_eq!(viewport.cells()[0][0].character, 'A');
    assert_eq!(
        viewport.raw_anchor_at(DisplayPoint::new(0, 0)),
        Some(RawCellAnchor {
            row_id: alt_id,
            column: 0
        })
    );
    assert_eq!(
        viewport.display_point_for(RawCellAnchor {
            row_id: alt_id,
            column: 0
        }),
        Some(DisplayPoint::new(0, 0))
    );
    assert_eq!(
        viewport.display_point_for(RawCellAnchor {
            row_id: primary_id,
            column: 0
        }),
        None
    );
}

#[test]
fn projected_viewport_cache_invalidates_on_scrollback_only_mutation() {
    let mut terminal = TerminalState::new(3, 2);
    let mut row = vec![TerminalCell::default(); 3];
    row[0].character = 'A';
    terminal.push_scrollback_compressed(ScrollbackLine::compress(&row, false));
    terminal.scroll_offset = 1;
    let before = terminal.projected_viewport(HistoryProjection::identity(), true);
    let grid_version = terminal.grid_version;

    row[0].character = 'B';
    terminal.push_scrollback_compressed(ScrollbackLine::compress(&row, false));
    assert_eq!(terminal.grid_version, grid_version);
    let after = terminal.projected_viewport(HistoryProjection::identity(), true);

    assert_ne!(before.key(), after.key());
    assert!(!std::sync::Arc::ptr_eq(
        &before.cells_arc(),
        &after.cells_arc()
    ));
    assert_eq!(terminal.scroll_offset, 2);
    assert_eq!(after.cells()[0][0].character, 'A');
    assert_eq!(after.cells()[1][0].character, 'B');
}

#[test]
fn projected_selection_entrypoints_match_legacy_geometry_and_copy_bytes() {

    let mut legacy = populated();
    legacy.start_selection((0, 1));
    legacy.update_selection((2, 3));

    let mut projected = populated();
    let viewport = projected.projected_viewport(HistoryProjection::identity(), true);
    projected.start_selection_projected(&viewport, (0, 1));
    projected.update_selection_projected(&viewport, (2, 3));

    assert_eq!(projected.selection, legacy.selection);
    assert_eq!(projected.copy_selection(), legacy.copy_selection());
    for row in 0..viewport.rows() {
        assert_eq!(
            projected.row_selection_cols_projected(&viewport, row),
            legacy.row_selection_cols(row),
            "selection highlight row {row}"
        );
    }

    let mut legacy_word = populated();
    legacy_word.select_word_at(1, 1);
    let mut projected_word = populated();
    let word_view = projected_word.projected_viewport(HistoryProjection::identity(), true);
    projected_word.select_word_at_projected(&word_view, 1, 1);
    assert_eq!(projected_word.selection, legacy_word.selection);
    assert_eq!(
        projected_word.copy_selection(),
        legacy_word.copy_selection()
    );

    let mut legacy_line = populated();
    legacy_line.select_line_at(1);
    let mut projected_line = populated();
    let line_view = projected_line.projected_viewport(HistoryProjection::identity(), true);
    projected_line.select_line_at_projected(&line_view, 1);
    assert_eq!(projected_line.selection, legacy_line.selection);
    assert_eq!(
        projected_line.copy_selection(),
        legacy_line.copy_selection()
    );
}

#[test]
fn projected_legacy_metrics_preserve_mouse_scrollbar_cursor_and_kitty_coordinates() {
    let mut terminal = TerminalState::new(5, 3);
    terminal.process_input(b"zero\r\none\r\ntwo\r\nthree");
    terminal.scroll(1);
    let cursor = terminal.get_cursor_pos();
    let history_len = terminal.scrollback_len();
    let scroll_offset = terminal.scroll_offset;
    let viewport = terminal.projected_viewport(HistoryProjection::identity(), true);

    assert_eq!(viewport.cursor(), DisplayPoint::new(cursor.0, cursor.1));
    assert_eq!(viewport.history_len(), history_len);
    assert_eq!(viewport.scroll_offset(), scroll_offset);
    assert_eq!(viewport.total_lines(), history_len + viewport.rows());
    assert_eq!(
        viewport.application_cell(DisplayPoint::new(2, 4)),
        Some((2, 4))
    );
    assert_eq!(viewport.application_cell(DisplayPoint::new(3, 0)), None);
    assert_eq!(viewport.kitty_viewport_row(-1), -1 + scroll_offset as i64);
}

#[test]
fn raw_row_identity_follows_local_scroll_moves_and_drops_removed_rows() {
    let mut terminal = TerminalState::new(4, 4);
    let original: Vec<_> = (0..4).map(|row| terminal.grid.row_id(row)).collect();

    terminal.scroll_region_up(1, 3);
    assert_eq!(terminal.grid.row_id(0), original[0]);
    assert_eq!(terminal.grid.row_id(1), original[2]);
    assert_eq!(terminal.grid.row_id(2), original[3]);
    let fresh_bottom = terminal.grid.row_id(3);
    assert!(!original.contains(&fresh_bottom));

    let viewport = terminal.projected_viewport(HistoryProjection::identity(), true);
    assert_eq!(
        viewport.display_point_for(RawCellAnchor {
            row_id: original[2],
            column: 0,
        }),
        Some(DisplayPoint::new(1, 0))
    );
    assert_eq!(
        viewport.display_point_for(RawCellAnchor {
            row_id: original[1],
            column: 0,
        }),
        None
    );

    terminal.scroll_region_down(1, 3);
    assert_eq!(terminal.grid.row_id(2), original[2]);
    assert_eq!(terminal.grid.row_id(3), original[3]);
    let fresh_top = terminal.grid.row_id(1);
    assert!(!original.contains(&fresh_top));
    assert_ne!(fresh_top, fresh_bottom);

    let viewport = terminal.projected_viewport(HistoryProjection::identity(), true);
    for (row, row_id) in [original[0], fresh_top, original[2], original[3]]
        .into_iter()
        .enumerate()
    {
        let display = DisplayPoint::new(row, 0);
        let raw = RawCellAnchor { row_id, column: 0 };
        assert_eq!(viewport.raw_anchor_at(display), Some(raw));
        assert_eq!(viewport.display_point_for(raw), Some(display));
    }
}

#[test]
fn raw_row_identity_tracks_csi_insert_and_delete_lines() {
    let mut insert = TerminalState::new(4, 4);
    let original: Vec<_> = (0..4).map(|row| insert.grid.row_id(row)).collect();
    insert.process_input(b"\x1b[2;1H\x1b[2L");
    assert_eq!(insert.grid.row_id(0), original[0]);
    assert_eq!(insert.grid.row_id(3), original[1]);
    assert!(!original.contains(&insert.grid.row_id(1)));
    assert!(!original.contains(&insert.grid.row_id(2)));
    assert_ne!(insert.grid.row_id(1), insert.grid.row_id(2));

    let mut delete = TerminalState::new(4, 4);
    let original: Vec<_> = (0..4).map(|row| delete.grid.row_id(row)).collect();
    delete.process_input(b"\x1b[2;1H\x1b[2M");
    assert_eq!(delete.grid.row_id(0), original[0]);
    assert_eq!(delete.grid.row_id(1), original[3]);
    assert!(!original.contains(&delete.grid.row_id(2)));
    assert!(!original.contains(&delete.grid.row_id(3)));
    assert_ne!(delete.grid.row_id(2), delete.grid.row_id(3));
}

#[test]
fn full_scroll_transfers_identity_but_archive_snapshot_duplicates_it() {
    let mut terminal = TerminalState::new(6, 3);
    terminal.grid.rows[0].cells[0].character = 'A';
    terminal.grid.rows[1].cells[0].character = 'B';
    let first = terminal.grid.row_id(0);
    let second = terminal.grid.row_id(1);
    terminal.cursor_row = 2;
    terminal.scroll_region_up(0, 2);

    assert_eq!(terminal.scrollback.back().unwrap().raw_row_id(), first);
    assert_eq!(terminal.grid.row_id(0), second);
    assert!(!terminal.grid.row_id(2).is_tracked() || terminal.grid.row_id(2) != first);

    let live_source = terminal.grid.row_id(0);
    terminal.archive_visible_screen_to_scrollback_with_options(false, false);
    let snapshot = terminal.scrollback.back().unwrap().raw_row_id();
    assert!(snapshot.is_tracked());
    assert_ne!(snapshot, live_source);
    assert_eq!(terminal.grid.row_id(0), live_source);
}

#[test]
fn resize_retains_surviving_row_ids_and_allocates_only_new_rows() {
    let mut terminal = TerminalState::new(4, 2);
    let retained: Vec<_> = (0..2).map(|row| terminal.grid.row_id(row)).collect();
    terminal.on_resize(7, 4);

    assert_eq!(terminal.grid.row_id(0), retained[0]);
    assert_eq!(terminal.grid.row_id(1), retained[1]);
    assert!(!retained.contains(&terminal.grid.row_id(2)));
    assert!(!retained.contains(&terminal.grid.row_id(3)));
    assert_ne!(terminal.grid.row_id(2), terminal.grid.row_id(3));

    let dropped = terminal.grid.row_id(3);
    terminal.cursor_row = 0;
    terminal.on_resize(7, 3);
    let viewport = terminal.projected_viewport(HistoryProjection::identity(), true);
    assert_eq!(
        viewport.display_point_for(RawCellAnchor {
            row_id: dropped,
            column: 0,
        }),
        None
    );
}

#[test]
fn alternate_screen_swap_preserves_each_grids_row_identity() {
    let mut terminal = TerminalState::new(4, 2);
    let primary: Vec<_> = (0..2).map(|row| terminal.grid.row_id(row)).collect();
    let hidden_alt: Vec<_> = (0..2).map(|row| terminal.alt_grid.row_id(row)).collect();

    terminal.process_input(b"\x1b[?1049h");
    assert_eq!(row_ids(&terminal), hidden_alt);
    terminal.process_input(b"\x1b[?1049l");
    assert_eq!(row_ids(&terminal), primary);
}

#[test]
fn projection_key_distinguishes_primary_and_alt_even_when_both_bypass() {
    let mut terminal = TerminalState::new(4, 2);
    terminal.process_input(b"primary");
    let primary = terminal.projected_viewport(HistoryProjection::identity(), false);
    assert!(!primary.key().alt_screen);

    terminal.process_input(b"\x1b[?47hALT");
    let alternate = terminal.projected_viewport(HistoryProjection::identity(), false);
    assert!(alternate.key().alt_screen);
    assert_ne!(alternate.key(), primary.key());
    assert!(!std::sync::Arc::ptr_eq(
        &alternate.cells_arc(),
        &primary.cells_arc()
    ));

    terminal.process_input(b"\x1b[?47l");
    let restored = terminal.projected_viewport(HistoryProjection::identity(), false);
    assert!(!restored.key().alt_screen);
    assert_ne!(restored.key(), primary.key());
    assert_eq!(restored.cells()[0][0].character, 'p');
}

#[test]
fn raw_row_allocator_exhaustion_never_reuses_zero_or_a_prior_id() {
    let mut terminal = TerminalState::new(2, 2);
    terminal.next_raw_row_id = u64::MAX;

    let last = terminal.fresh_raw_row_id();
    let exhausted = terminal.fresh_raw_row_id();
    let still_exhausted = terminal.fresh_raw_row_id();

    assert_eq!(last.raw, u64::MAX);
    assert_eq!(exhausted, RawRowId::untracked());
    assert_eq!(still_exhausted, RawRowId::untracked());
    assert_eq!(terminal.next_raw_row_id, 0);
}

#[test]
fn hard_reset_does_not_retarget_origins_into_replacement_rows() {
    let mut terminal = TerminalState::new(3, 2);
    let stale = terminal.grid.row_id(0);
    terminal.hard_reset();
    let viewport = terminal.projected_viewport(HistoryProjection::identity(), true);

    assert_ne!(terminal.grid.row_id(0), stale);
    assert_eq!(
        viewport.display_point_for(RawCellAnchor {
            row_id: stale,
            column: 0,
        }),
        None
    );
}

#[test]
fn appending_scrollback_invalidates_a_cached_historical_viewport() {

    let mut terminal = TerminalState::new(4, 2);
    terminal.push_scrollback_compressed(tagged_line('A'));
    terminal.push_scrollback_compressed(tagged_line('B'));
    terminal.scroll_offset = 1;

    let before = terminal.get_visible_cells();
    assert_eq!(before[0][0].character, 'B');

    let version = terminal.grid_version;
    terminal.push_scrollback_compressed(tagged_line('C'));
    assert_eq!(terminal.grid_version, version);
    let after = terminal.get_visible_cells();

    assert!(!std::sync::Arc::ptr_eq(&before, &after));
    assert_eq!(terminal.scroll_offset, 2);
    assert_eq!(after[0][0].character, 'B');
    assert_eq!(after[1][0].character, 'C');
}

#[test]
fn alt_screen_does_not_inherit_or_export_the_scroll_region() {
    let mut terminal = TerminalState::new(20, 10);
    terminal.process_input(b"\x1b[3;7r");
    assert_eq!(
        (terminal.scroll_region_top, terminal.scroll_region_bottom),
        (2, 6)
    );

    terminal.process_input(b"\x1b[?1049h");
    assert_eq!(
        (terminal.scroll_region_top, terminal.scroll_region_bottom),
        (0, 9)
    );

    terminal.process_input(b"\x1b[2;4r");
    terminal.process_input(b"\x1b[?1049l");
    assert_eq!(
        (terminal.scroll_region_top, terminal.scroll_region_bottom),
        (0, 9)
    );
}

#[test]
fn leaving_the_alt_screen_restores_the_shells_sgr_rather_than_clearing_it() {
    let mut terminal = TerminalState::new(20, 4);
    terminal.process_input(b"\x1b[31m");
    let shell_fg = terminal.current_fg;

    terminal.process_input(b"\x1b[?1049h\x1b[44m\x1b[1m");
    terminal.process_input(b"\x1b[?1049l");

    assert_eq!(terminal.current_fg, shell_fg);
    assert_eq!(terminal.current_bg, Color::Default);
    assert_eq!(terminal.current_flags, StyleFlags::plain());
}

#[test]
fn rep_repeats_the_last_graphic_character() {
    let mut terminal = TerminalState::new(10, 2);

    terminal.process_input(b"-\x1b[4b");

    let row: String = terminal.get_visible_cells()[0][..5]
        .iter()
        .map(|cell| cell.character)
        .collect();
    assert_eq!(row, "-----");
}

#[test]
fn rep_without_a_preceding_glyph_is_ignored() {
    let mut terminal = TerminalState::new(10, 2);

    terminal.process_input(b"\x1b[4b");

    assert_eq!(terminal.cursor_col, 0);
    assert_eq!(terminal.get_visible_cells()[0][0].character, ' ');
}

#[test]
fn cht_and_cbt_walk_the_tab_stops() {
    let mut terminal = TerminalState::new(40, 2);

    terminal.process_input(b"\x1b[3I");
    assert_eq!(terminal.cursor_col, 24);

    terminal.process_input(b"\x1b[2Z");
    assert_eq!(terminal.cursor_col, 8);

    terminal.process_input(b"\x1b[9Z");
    assert_eq!(terminal.cursor_col, 0);
}

#[test]
fn scrollback_viewport_is_pinned_when_new_output_arrives() {

    let mut terminal = TerminalState::new(4, 2);
    for tag in ['A', 'B', 'C', 'D'] {
        terminal.push_scrollback_compressed(tagged_line(tag));
    }
    terminal.scroll_offset = 3;
    let top_before = terminal.get_visible_cells()[0][0].character;
    assert_eq!(top_before, 'B');

    for tag in ['E', 'F', 'G'] {
        terminal.push_scrollback_compressed(tagged_line(tag));
    }

    assert_eq!(terminal.scroll_offset, 6);
    assert_eq!(terminal.get_visible_cells()[0][0].character, top_before);
}

#[test]
fn a_viewport_at_the_live_tail_is_not_pinned() {

    let mut terminal = TerminalState::new(4, 2);
    terminal.push_scrollback_compressed(tagged_line('A'));
    assert_eq!(terminal.scroll_offset, 0);

    terminal.push_scrollback_compressed(tagged_line('B'));

    assert_eq!(terminal.scroll_offset, 0);
}

#[test]
fn shrinking_scrollback_invalidates_both_historical_view_caches() {

    let mut terminal = TerminalState::new(4, 2);
    for tag in ['A', 'B', 'C'] {
        terminal.push_scrollback_compressed(tagged_line(tag));
    }
    terminal.scroll_offset = 1;
    let before = terminal.get_visible_cells();
    let _ = terminal.viewport_buffer_mapping_is_exact();
    assert!(terminal.caches.visible_cells.is_some());

    terminal.set_max_scrollback(2);

    assert!(terminal.caches.visible_cells.is_none());
    let after = terminal.get_visible_cells();
    assert!(!std::sync::Arc::ptr_eq(&before, &after));
    assert_eq!(terminal.scrollback_len(), 2);
    assert_eq!(after[0][0].character, 'C');
}

#[test]
fn visible_cells_keep_rectangular_shape_after_resize_with_scrollback() {
    let mut terminal = TerminalState::new(4, 2);
    terminal.grid.rows[0].cells[0].character = 'A';
    terminal.grid.rows[1].cells[0].character = 'B';
    terminal.cursor_row = 1;

    terminal.process_input(b"\n");
    terminal.on_resize(5, 2);
    terminal.scroll(1);

    let visible = terminal.get_visible_cells();

    assert_eq!(visible.len(), 2);
    assert!(visible.iter().all(|row| row.len() == 5));
    assert_eq!(visible[0][0].character, 'A');
    assert_eq!(visible[0][4].character, ' ');
}

#[test]
fn resize_invalidates_an_already_populated_visible_cells_cache() {
    let mut terminal = TerminalState::new(4, 2);
    terminal.process_input(b"abcd");
    let cached = terminal.get_visible_cells();
    assert_eq!(cached.len(), 2);
    assert!(cached.iter().all(|row| row.len() == 4));
    let version_before = terminal.get_grid_version();

    terminal.on_resize(6, 3);
    let resized = terminal.get_visible_cells();

    assert!(terminal.get_grid_version() > version_before);
    assert_eq!(resized.len(), 3);
    assert!(resized.iter().all(|row| row.len() == 6));
    assert_eq!(resized[0][0].character, 'a');
}

#[test]
fn viewport_mapping_exactness_is_recomputed_when_height_changes() {
    let mut terminal = TerminalState::new(4, 2);
    let line = vec![TerminalCell::default(); 4];
    for index in 0..5 {
        terminal
            .scrollback
            .push_back(ScrollbackLine::compress(&line, index == 0));
    }
    terminal.total_lines_scrolled = 5;
    terminal.scroll_offset = 1;
    assert!(terminal.viewport_buffer_mapping_is_exact());

    terminal.on_resize(4, 4);
    terminal.scroll_offset = 1;
    assert!(!terminal.viewport_buffer_mapping_is_exact());
}

#[test]
fn cursor_is_hidden_while_viewing_scrollback() {
    let mut terminal = TerminalState::new(4, 2);
    terminal.grid.rows[0].cells[0].character = 'A';
    terminal.grid.rows[1].cells[0].character = 'B';
    terminal.cursor_row = 1;

    terminal.process_input(b"\n");

    assert!(terminal.is_cursor_visible());

    terminal.scroll(1);

    assert!(!terminal.is_cursor_visible());
}

#[test]
fn scroll_to_bottom_restores_live_cursor_visibility() {
    let mut terminal = TerminalState::new(4, 2);
    terminal.grid.rows[0].cells[0].character = 'A';
    terminal.grid.rows[1].cells[0].character = 'B';
    terminal.cursor_row = 1;

    terminal.process_input(b"\n");
    terminal.scroll(1);
    terminal.scroll_to_bottom();

    assert_eq!(terminal.scroll_offset, 0);
    assert!(terminal.is_cursor_visible());
}

#[test]
fn sgr_39_and_49_restore_default_colors() {
    let mut terminal = TerminalState::new(8, 2);

    terminal.process_input(b"\x1b[36;44mA\x1b[39;49mB");

    let first = &terminal.grid.rows[0].cells[0];
    let second = &terminal.grid.rows[0].cells[1];

    assert_eq!(first.foreground, Color::Cyan);
    assert_eq!(first.background, Color::Blue);
    assert_eq!(second.foreground, Color::Default);
    assert_eq!(second.background, Color::Default);
}
