use ovim_core::buffer::DEFAULT_CAPACITY;
use ovim_core::editor::clipboard::NoClipboard;
use ovim_core::editor::diagnostics::{
    diagnostic_counts, diagnostic_result, project_offset, project_offset_clamped,
    DiagnosticRequest, DiagnosticResult,
};
use ovim_core::editor::lsp_state::{HoverCache, HoverContentType, ProjectedDiagnostics};
use ovim_core::editor::{Editor, Mode};
use ovim_core::lsp::{
    char_col_to_utf16, diagnostic_char_range, diagnostic_covers_line, utf16_to_char_col,
    Diagnostic, DiagnosticSeverity, LspRange, Position,
};
use ovim_core::unicode::{CharCol, GraphemeCol};

fn diagnostic(range: LspRange, message: &str) -> Diagnostic {
    Diagnostic {
        range,
        severity: None,
        message: message.to_string(),
        source: None,
        code: None,
    }
}

fn span(start_line: u32, start: u32, end_line: u32, end: u32) -> LspRange {
    LspRange::new(Position::new(start_line, start), Position::new(end_line, end))
}

fn diag(severity: Option<DiagnosticSeverity>) -> Diagnostic {
    Diagnostic {
        severity,
        ..diagnostic(span(0, 0, 0, 1), "x")
    }
}

fn ranged_diag(start: u32, end: u32, message: &str) -> Diagnostic {
    diagnostic(span(0, start, 0, end), message)
}

fn editor(text: &str) -> Editor<NoClipboard> {
    Editor::with_content(text, NoClipboard::new())
}

#[test]
fn diagnostic_counts_by_severity() {
    let diags = vec![
        diag(Some(DiagnosticSeverity::Error)),
        diag(Some(DiagnosticSeverity::Warning)),
        diag(Some(DiagnosticSeverity::Warning)),
        diag(Some(DiagnosticSeverity::Information)),
        diag(Some(DiagnosticSeverity::Hint)),
    ];
    assert_eq!(diagnostic_counts(&diags), (1, 2, 1, 1));
}

#[test]
fn diagnostic_counts_missing_severity_is_error() {
    let diags = vec![diag(None), diag(Some(DiagnosticSeverity::Warning))];
    assert_eq!(diagnostic_counts(&diags), (1, 1, 0, 0));
}

#[test]
fn current_diagnostic_uses_cursor_column_on_shared_line() {
    let mut editor = editor("first second\n");
    editor.lsp.set_current_file_diagnostics(vec![
        ranged_diag(0, 5, "first diagnostic"),
        ranged_diag(6, 12, "second diagnostic"),
    ]);
    editor
        .buffer_mut()
        .cursor_mut()
        .set_position(0, GraphemeCol(9));

    assert_eq!(
        editor.current_diagnostic().as_deref(),
        Some("second diagnostic")
    );
}

#[test]
fn current_diagnostic_normalizes_grapheme_and_utf16_columns() {
    let mut editor = editor("👨‍👩‍👧‍👦 alpha beta\n");
    editor.lsp.set_current_file_diagnostics(vec![
        ranged_diag(12, 17, "alpha diagnostic"),
        ranged_diag(18, 22, "beta diagnostic"),
    ]);
    editor
        .buffer_mut()
        .cursor_mut()
        .set_position(0, GraphemeCol(8));

    assert_eq!(
        editor.current_diagnostic().as_deref(),
        Some("beta diagnostic")
    );
}

fn result(
    editor: &Editor<NoClipboard>,
    lsp_version: i32,
    diagnostics: Vec<Diagnostic>,
) -> DiagnosticResult {
    DiagnosticResult {
        file_path: editor.buffer().file_path().unwrap().to_owned(),
        buffer_version: editor.buffer().version(),
        lsp_version,
        lsp_sent_version: lsp_version,
        count: diagnostic_counts(&diagnostics),
        diagnostics,
        deferred: false,
    }
}

fn apply_diagnostics(editor: &mut Editor<NoClipboard>, diagnostics: Vec<Diagnostic>) {
    let result = result(editor, 1, diagnostics);
    assert!(editor.poll_pending_diagnostic_refresh_response(Some(Ok(result))));
}

#[test]
fn poll_pending_diagnostic_refresh_response_applies_latest_result() {
    let mut editor = editor("class Test {}\n");
    editor.set_file_path("/tmp/Test.java".to_string());
    let warning = Diagnostic {
        severity: Some(DiagnosticSeverity::Warning),
        ..diagnostic(span(0, 0, 0, 5), "Example warning")
    };
    let result = result(&editor, 4, vec![warning]);
    assert!(editor.poll_pending_diagnostic_refresh_response(Some(Ok(result))));
    assert_eq!(editor.lsp.diagnostic_count, (0, 1, 0, 0));
    assert_eq!(editor.lsp.current_file_diagnostics.len(), 1);
    assert_eq!(editor.lsp.current_file_lsp_version, 4);
    assert_eq!(editor.lsp.current_file_lsp_sent_version, 4);
    assert!(!editor.diagnostics_cache_stale());
}

#[test]
fn poll_keeps_diagnostics_when_buffer_edited_during_fetch() {
    let mut editor = editor("let x = 1;\n");
    editor.set_file_path("/tmp/test.rs".to_string());
    let initial_version = editor.buffer().version();
    let result = result(
        &editor,
        2,
        vec![diagnostic(span(0, 4, 0, 5), "unused variable")],
    );

    // A buffer edit AFTER the refresh was spawned.
    editor.buffer_mut().insert_text_at(0, CharCol(0), "// ");
    assert_ne!(
        editor.buffer().version(),
        initial_version,
        "buffer version should have changed after edit"
    );

    let changed = editor.poll_pending_diagnostic_refresh_response(Some(Ok(result)));
    assert!(changed);

    // File path still matches, so diagnostics are NOT stale.
    assert!(!editor.diagnostics_cache_stale());
    // A refresh should be requested for the current buffer content.
    assert!(editor.lsp.diagnostics_stale);
    assert_eq!(editor.diagnostic_count(), 1);
    assert_eq!(editor.lsp.current_file_lsp_version, 0);
}

#[test]
fn poll_pending_diagnostic_refresh_response_requeues_deferred_result() {
    let mut editor = editor("class Test {}\n");
    editor.set_file_path("/tmp/Test.java".to_string());
    let bv = editor.buffer().version();
    let deferred = DiagnosticResult {
        file_path: "/tmp/Test.java".to_string(),
        buffer_version: bv,
        lsp_version: 5,
        lsp_sent_version: 4,
        diagnostics: Vec::new(),
        count: (0, 0, 0, 0),
        deferred: true,
    };

    assert!(!editor.poll_pending_diagnostic_refresh_response(Some(Ok(deferred))));
    assert!(editor.lsp.diagnostics_stale);
    assert!(editor.lsp.current_file_diagnostics.is_empty());
    // Version fields are only stamped for results that pass both the deferred
    // and wrong-file guards.
    assert_eq!(editor.lsp.current_file_lsp_version, 0);
    assert_eq!(editor.lsp.current_file_lsp_sent_version, 0);
}

#[test]
fn poll_wrong_file_result_does_not_stamp_version_fields() {
    let mut editor = editor("class B {}\n");
    editor.set_file_path("/tmp/B.java".to_string());
    editor.lsp.current_file_lsp_version = 7;
    editor.lsp.current_file_lsp_sent_version = 7;

    let bv = editor.buffer().version();
    let other = DiagnosticResult {
        file_path: "/tmp/A.java".to_string(),
        buffer_version: bv,
        lsp_version: 3,
        lsp_sent_version: 2,
        diagnostics: Vec::new(),
        count: (0, 0, 0, 0),
        deferred: false,
    };

    assert!(!editor.poll_pending_diagnostic_refresh_response(Some(Ok(other))));
    assert_eq!(editor.lsp.current_file_lsp_version, 7);
    assert_eq!(editor.lsp.current_file_lsp_sent_version, 7);
    assert!(!editor.poll_pending_diagnostic_refresh_response(Some(Err("lost".to_string()))));
    assert!(!editor.poll_pending_diagnostic_refresh_response(None));
}

#[test]
fn diagnostic_refresh_reaches_every_covered_line() {
    let mut editor = editor("before\nfirst\nmiddle\nlast\nafter\n");
    editor.set_file_path("/tmp/multiline.rs".to_owned());

    for (end_column, covered_lines) in [(2, vec![1, 2, 3]), (0, vec![1, 2])] {
        apply_diagnostics(
            &mut editor,
            vec![diagnostic(span(1, 1, 3, end_column), "spanning diagnostic")],
        );
        for line in 0..5 {
            let covered = covered_lines.contains(&line);
            assert_eq!(editor.has_diagnostics_on_line(line), covered, "line {line}");
            assert_eq!(
                editor.diagnostics_for_line(line).len(),
                usize::from(covered)
            );
            editor.buffer_mut().cursor_mut().set_line(line);
            assert_eq!(
                editor.current_diagnostic().as_deref(),
                covered.then_some("spanning diagnostic")
            );
        }
    }
    apply_diagnostics(&mut editor, vec![]);
    assert!((0..5).all(|line| !editor.has_diagnostics_on_line(line)));
}

#[test]
fn eviction_fallback_saturates_oversized_range_endpoints() {
    let mut editor = editor("abcdefghij\nmiddle\nlast\n");
    editor.set_file_path("/tmp/oversized.rs".to_owned());
    let source_version = editor.buffer().version() as u64;
    apply_diagnostics(
        &mut editor,
        vec![diagnostic(
            span(1, 0, u32::MAX, u32::MAX),
            "file-wide diagnostic",
        )],
    );

    // Evict the publication's history. The stored line-start offset now
    // resolves to a later line, so shifting u32::MAX must saturate.
    for _ in 0..=DEFAULT_CAPACITY {
        editor.buffer_mut().insert_text_at(0, CharCol(0), "\n");
    }
    assert!(editor.buffer().edits_since(source_version).is_none());
    let projected = editor.project_diagnostics();
    let diagnostics = projected.covering_line(editor.buffer().line_count() - 1);
    assert_eq!(diagnostics.len(), 1);
    assert!(diagnostics[0].range.start.line > 1);
    assert_eq!(diagnostics[0].range.end.line, u32::MAX);
}

#[test]
fn diagnostics_for_line_projects_through_line_shifting_edits() {
    let mut editor = editor("fn a() {}\nfn b() {}\nlet bad = 1;\n");
    editor.set_file_path("/tmp/test.rs".to_string());
    apply_diagnostics(
        &mut editor,
        vec![diagnostic(span(2, 4, 2, 7), "bad name")],
    );
    assert!(editor.has_diagnostics_on_line(2));

    // Open a line above: everything below shifts down one line and the
    // edit log records the insert.
    editor.buffer_mut().insert_text_at(0, CharCol(0), "// note\n");

    assert!(
        !editor.has_diagnostics_on_line(2),
        "original line must not keep a stale sign/squiggle"
    );
    assert!(
        editor.has_diagnostics_on_line(3),
        "diagnostic must follow its code to the shifted line"
    );
    let projected = editor.diagnostics_for_line(3);
    assert_eq!(projected.len(), 1);
    assert_eq!(projected[0].range.start.line, 3);
    assert_eq!(projected[0].range.start.character, 4);
    assert_eq!(projected[0].range.end.character, 7);
    assert!(editor.diagnostics_for_line(2).is_empty());

    // The cursor-line echo/float path agrees.
    editor
        .buffer_mut()
        .cursor_mut()
        .set_position(3, GraphemeCol(4));
    assert_eq!(editor.current_diagnostic().as_deref(), Some("bad name"));
}

#[test]
fn diagnostics_for_line_projects_columns_within_line() {
    let mut editor = editor("let bad = 1;\n");
    editor.set_file_path("/tmp/test.rs".to_string());
    apply_diagnostics(
        &mut editor,
        vec![diagnostic(span(0, 4, 0, 7), "bad name")],
    );

    editor.buffer_mut().insert_text_at(0, CharCol(0), "// ");

    let projected = editor.diagnostics_for_line(0);
    assert_eq!(projected.len(), 1);
    assert_eq!(projected[0].range.start.character, 7);
    assert_eq!(projected[0].range.end.character, 10);
}

#[test]
fn projected_line_hash_changes_when_set_changes_without_edit() {
    let mut editor = editor("let x = 1;\n");
    editor
        .lsp
        .set_current_file_diagnostics(vec![ranged_diag(4, 5, "top message")]);
    let h1 = editor.project_diagnostics().line_hash(0);

    editor.lsp.set_current_file_diagnostics(vec![
        ranged_diag(4, 5, "top message"),
        ranged_diag(8, 9, "top message"),
    ]);
    let h2 = editor.project_diagnostics().line_hash(0);

    assert_ne!(h1, h2, "new span on the line must change the fingerprint");
    // Untouched lines keep a stable fingerprint.
    assert_eq!(
        editor.project_diagnostics().line_hash(5),
        editor.project_diagnostics().line_hash(6)
    );
}

#[test]
fn covering_line_reaches_continuation_lines_that_for_line_does_not() {
    let snapshot =
        ProjectedDiagnostics::new(vec![diagnostic(span(1, 16, 4, 6), "incompatible types")]);

    assert_eq!(snapshot.for_line(1).len(), 1);
    for line in 2..=4 {
        assert!(
            snapshot.for_line(line).is_empty(),
            "line {line} does not start the span"
        );
        assert_eq!(
            snapshot.covering_line(line).len(),
            1,
            "line {line} is inside the span"
        );
    }
    assert!(snapshot.covering_line(0).is_empty());
    assert!(snapshot.covering_line(5).is_empty());
}

#[test]
fn line_hash_distinguishes_a_covered_continuation_line_from_a_clean_one() {
    let snapshot = ProjectedDiagnostics::new(vec![diagnostic(span(1, 0, 3, 4), "unreachable")]);

    assert_ne!(snapshot.line_hash(2), snapshot.line_hash(9));
}

#[test]
fn diagnostic_covers_line_respects_half_open_end() {
    let diag = diagnostic(span(1, 0, 3, 0), "unreachable");
    assert!(diagnostic_covers_line(&diag, 1));
    assert!(diagnostic_covers_line(&diag, 2));
    assert!(!diagnostic_covers_line(&diag, 3));
    assert!(!diagnostic_covers_line(&diag, 0));
}

#[test]
fn diagnostic_covers_line_keeps_zero_width_ranges_on_their_line() {
    let diag = diagnostic(span(2, 0, 2, 0), "missing semicolon");
    assert!(diagnostic_covers_line(&diag, 2));
    assert!(!diagnostic_covers_line(&diag, 3));
}

#[test]
fn invalid_ranges_are_left_out() {
    let mut editor = editor("abc\n");
    editor.lsp.set_current_file_diagnostics(vec![
        ranged_diag(2, 1, "backwards"),
        ranged_diag(0, 1, "forwards"),
    ]);
    assert_eq!(editor.diagnostic_count(), 1);
    assert_eq!(editor.all_diagnostics()[0].message, "forwards");
}

#[test]
fn offsets_move_with_edits_and_are_lost_inside_deletions() {
    let mut editor = editor("0123456789");
    editor.buffer_mut().insert_text_at(0, CharCol(2), "ab");
    editor.buffer_mut().delete_range(0, CharCol(6), 0, CharCol(9));
    let edits = editor.buffer().edits_from(0);
    assert_eq!(project_offset(1, &edits), Some(1));
    assert_eq!(project_offset(2, &edits), Some(4));
    assert_eq!(project_offset(5, &edits), None);
    assert_eq!(project_offset_clamped(5, &edits), 6);
    assert_eq!(project_offset(7, &edits), Some(6));
}

#[test]
fn a_result_of_older_content_is_deferred() {
    let request = || DiagnosticRequest {
        file_path: "/tmp/a.rs".to_string(),
        buffer_version: 3,
    };
    let late = diagnostic_result(request(), 5, 4, vec![diag(None)]);
    assert!(late.deferred);
    assert!(late.diagnostics.is_empty());
    assert_eq!(late.count, (0, 0, 0, 0));
    let fresh = diagnostic_result(request(), 5, 5, vec![diag(None)]);
    assert!(!fresh.deferred);
    assert_eq!(fresh.count, (1, 0, 0, 0));
}

#[test]
fn without_a_server_nothing_is_asked_for() {
    let mut editor = editor("abc\n");
    editor.lsp.set_current_file_diagnostics(vec![diag(None)]);
    editor.set_file_path("/tmp/a.rs".to_string());
    assert!(editor.spawn_diagnostic_cache_refresh(false, true).is_none());
    assert!(editor.lsp.current_file_diagnostics.is_empty());
    let request = editor.spawn_diagnostic_cache_refresh(true, true).unwrap();
    assert_eq!(request.file_path, "/tmp/a.rs");
}

#[test]
fn the_float_shows_severity_source_and_code() {
    let mut editor = editor("abc\n");
    editor.show_diagnostic_at_cursor();
    assert_eq!(editor.status_message(), "No diagnostics at cursor");
    editor.lsp.set_current_file_diagnostics(vec![Diagnostic {
        severity: Some(DiagnosticSeverity::Warning),
        source: Some("clippy".to_string()),
        code: Some("E1".to_string()),
        ..ranged_diag(0, 1, "unused")
    }]);
    editor.show_diagnostic_at_cursor();
    assert_eq!(
        editor.lsp.hover_info.as_deref(),
        Some("**Warning**: unused\n\n`clippy` `E1`")
    );
    assert_eq!(editor.lsp.hover_content_type, HoverContentType::Diagnostic);
    assert_eq!(editor.mode(), Mode::HoverPreview);
    assert_eq!(editor.status_message(), "");
}

#[test]
fn utf16_columns_round_trip() {
    let line = "a😀é";
    assert_eq!(char_col_to_utf16(line, 2), 3);
    assert_eq!(utf16_to_char_col(line, 3), 2);
    assert_eq!(utf16_to_char_col(line, 2), 2);
    assert_eq!(utf16_to_char_col(line, 99), 3);
    let d = ranged_diag(1, 3, "emoji");
    assert_eq!(diagnostic_char_range(&d, 0, line), Some(1..2));
    assert_eq!(diagnostic_char_range(&d, 1, line), None);
}

#[test]
fn hover_results_grow_old() {
    let cache = HoverCache::new("/tmp/a.rs".to_string(), 1, 2, 3, "text".to_string(), 1000);
    assert!(cache.is_valid("/tmp/a.rs", 1, 2, 3, 60_999));
    assert!(!cache.is_valid("/tmp/a.rs", 1, 2, 3, 61_000));
    assert!(!cache.is_valid("/tmp/a.rs", 1, 2, 4, 1000));
}

#[test]
fn severities_without_a_name_are_counted_nowhere() {
    let list = vec![diag(Some(DiagnosticSeverity::Other(9))), diag(None)];
    assert_eq!(diagnostic_counts(&list), (1, 0, 0, 0));
}
