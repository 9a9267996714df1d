use ovim_core::line_layout::{
    source_fragments_for_display_range, IndexedLineLayout, LayoutFragmentKind, VisualPosition,
};
use ovim_core::text_index::LineIndex;
use ovim_core::unicode::{CharCol, GraphemeCol};

#[test]
fn plain_ascii_geometry_is_arithmetic_and_rows_are_bounded() {
    let line = LineIndex::from_text("abcdefghij");
    let layout = IndexedLineLayout::new(line, 4, 4, vec![]);
    assert_eq!(layout.row_count(), 3);
    assert_eq!(
        layout.position_for_char(6),
        VisualPosition { row: 1, column: 2 }
    );
    assert_eq!(layout.display_range_for_row(1), Some(4..8));
    let rows = layout.row_fragments(1..2);
    assert_eq!(rows.len(), 1);
    assert_eq!(rows[0].fragments[0].text, "efgh");
}

#[test]
fn tabs_split_across_rows_and_wide_graphemes_move_atomically() {
    let line = LineIndex::from_text("aa\t界b");
    let layout = IndexedLineLayout::new(line, 3, 4, vec![]);
    let rows = layout.row_fragments(0..layout.row_count());
    assert_eq!(rows.len(), 3);
    assert!(matches!(rows[0].fragments[1].kind, LayoutFragmentKind::Tab));
    assert!(matches!(rows[1].fragments[0].kind, LayoutFragmentKind::Tab));
    assert_eq!(
        layout.position_for_char(3),
        VisualPosition { row: 1, column: 1 }
    );
    assert_eq!(rows[1].fragments[1].text, "界");
    assert_eq!(rows[1].fragments[1].row_column, 1);
}

#[test]
fn inline_widths_participate_in_wrap_without_materializing_text() {
    let line = LineIndex::from_text("abcd");
    let layout = IndexedLineLayout::new(line, 4, 4, vec![(2, 3)]);
    assert_eq!(layout.row_count(), 2);
    assert_eq!(
        layout.position_for_char(2),
        VisualPosition { row: 1, column: 1 }
    );
    let rows = layout.row_fragments(0..2);
    assert!(rows.iter().flat_map(|row| &row.fragments).any(|fragment| {
        matches!(
            fragment.kind,
            LayoutFragmentKind::InlineDecoration { index: 0, .. }
        )
    }));
}

#[test]
fn control_notation_keeps_source_coordinates() {
    let line = LineIndex::from_text("a\u{7f}b");
    let layout = IndexedLineLayout::new(line, 8, 4, vec![]);
    let rows = layout.row_fragments(0..1);
    let control = rows[0]
        .fragments
        .iter()
        .find(|fragment| matches!(fragment.kind, LayoutFragmentKind::Control))
        .unwrap();
    assert_eq!(control.text, "^?");
    assert_eq!(control.source.as_ref().unwrap().chars, 1..2);
}

#[test]
fn composed_display_window_materializes_only_intersecting_fragments() {
    let line = LineIndex::from_text("ab界cdef");
    let layout = IndexedLineLayout::new(line, 4, 4, vec![(4, 2)]);
    let fragments = layout.fragments_for_display_range(2..7);
    assert_eq!(
        fragments
            .iter()
            .filter(|fragment| matches!(fragment.kind, LayoutFragmentKind::Text))
            .map(|fragment| fragment.text.as_str())
            .collect::<Vec<_>>(),
        vec!["界", "c"]
    );
    assert!(fragments.iter().any(|fragment| matches!(
        fragment.kind,
        LayoutFragmentKind::InlineDecoration { index: 0, .. }
    )));
}

#[test]
fn source_display_window_snaps_wide_edges_and_clips_tabs() {
    let line = LineIndex::from_text("ab界\txyz");
    let fragments = source_fragments_for_display_range(&line, 4, 3..7);
    assert_eq!(fragments[0].text, "界");
    assert_eq!(fragments[0].display_start, 2);
    assert!(matches!(fragments[1].kind, LayoutFragmentKind::Tab));
    assert_eq!(fragments[1].text, "   ");
    assert_eq!(fragments[1].display_start, 4);
}

#[test]
fn exact_fill_eol_position_advances_to_the_next_visual_row() {
    for text in ["abcd", "a\t", "ab界"] {
        let line = LineIndex::from_text(text);
        let end = line.len_chars();
        let layout = IndexedLineLayout::new(line, 4, 4, vec![]);
        assert_eq!(
            layout.position_for_char(end),
            VisualPosition { row: 1, column: 0 },
            "{text:?}"
        );
    }
}

#[test]
fn zero_width_source_cluster_survives_a_bounded_window() {
    let line = LineIndex::from_text("\u{301}a");
    let fragments = source_fragments_for_display_range(&line, 4, 0..1);
    assert!(fragments.first().is_some_and(|fragment| {
        fragment.text.starts_with('\u{301}')
            && fragment.source.as_ref().unwrap().chars.start == 0
    }));
}

#[test]
fn unicode_inline_text_wraps_atomically_and_materializes() {
    let line = LineIndex::from_text("ab");
    let layout =
        IndexedLineLayout::with_inline_text(line, 2, 4, vec![(1, "界".to_string())]);
    let rows = layout.row_fragments(0..layout.row_count());
    assert_eq!(rows.len(), 3);
    assert_eq!(rows[1].fragments[0].text, "界");
    assert!(matches!(
        rows[1].fragments[0].kind,
        LayoutFragmentKind::InlineDecoration {
            index: 0,
            cell_offset: 0
        }
    ));
}

#[test]
fn line_index_converts_between_columns() {
    let line = LineIndex::from_text("e\u{301}\t界x");
    assert_eq!(line.len_chars(), 5);
    assert_eq!(line.grapheme_count(), 4);
    assert_eq!(line.grapheme_to_char(GraphemeCol(1)), CharCol(2));
    assert_eq!(line.char_to_grapheme(CharCol(2)), GraphemeCol(1));
    assert_eq!(line.char_to_byte(3), 4);
    assert_eq!(line.grapheme_to_display(2, 4), 4);
    assert_eq!(line.grapheme_to_display(3, 4), 6);
    assert!(!line.is_plain_ascii());
}

#[test]
fn rows_tile_their_line() {
    let line = LineIndex::from_text("aa\t界b\u{1}界界cdef");
    let layout = IndexedLineLayout::new(line, 5, 4, vec![(4, 3), (20, 2)]);
    let rows = layout.row_fragments(0..layout.row_count());
    assert_eq!(rows[0].display_start, 0);
    for pair in rows.windows(2) {
        assert_eq!(pair[0].display_end, pair[1].display_start);
        let cells: usize = pair[0].fragments.iter().map(|f| f.cells).sum();
        assert_eq!(cells, 5);
    }
    assert_eq!(rows.last().unwrap().display_end, 22);
    let place = layout.position_for_char(4);
    assert_eq!(rows[place.row].display_start + place.column, 9);
}

#[test]
fn the_ranges_of_the_rows_tile_the_line() {
    for (text, width, cells) in [("", 4, 0), ("abcdefghij", 4, 10), ("aa\t界b", 3, 7)] {
        let layout = IndexedLineLayout::new(LineIndex::from_text(text), width, 4, vec![]);
        let mut at = 0;
        for row in 0..layout.row_count() {
            let range = layout.display_range_for_row(row).unwrap();
            assert_eq!(range.start, at);
            assert!(range.start <= range.end);
            at = range.end;
        }
        assert_eq!(at, cells);
        assert!(layout.row_count() >= 1);
        assert_eq!(layout.display_range_for_row(layout.row_count()), None);
    }
}
