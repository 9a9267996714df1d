use ovim_core::buffer::{Buffer, LineEnding};
use ovim_core::editor::buffer_manager::{
    file_content, is_scratch_buffer, is_scratch_path, CatalogLanguage,
    DiskAnswer, FileSource, WriteStep,
};
use ovim_core::editor::clipboard::NoClipboard;
use ovim_core::editor::text_edits::{apply_text_edits_to_buffer, normalize_for_buffer};
use ovim_core::editor::{CursorPos, Editor};
use ovim_core::indentation::IndentOptions;
use ovim_core::lsp::{LspRange, Position, TextEdit};
use ovim_core::syntax::path_name;
use ovim_core::unicode::{CharCol, GraphemeCol};

fn file_buffer(path: &str, text: &str) -> Buffer {
    let mut buffer = Buffer::new_from_str(text);
    buffer.set_file_path(path.to_string());
    buffer
}

fn editor() -> Editor<NoClipboard> {
    Editor::with_content("", NoClipboard::new())
}

fn open(editor: &mut Editor<NoClipboard>, path: &str, text: &str) {
    editor.open_file(path, FileSource::Loaded(file_buffer(path, text)));
}

#[test]
fn is_scratch_path_detects_bracket_names() {
    // Absolute paths with bracket filenames are scratch buffers
    assert!(is_scratch_path("/some/path/[LspInfo]"));
    assert!(is_scratch_path("/Users/foo/[Diagnostics]"));
    assert!(is_scratch_path("[Scratch]"));

    // Regular file paths are not scratch buffers
    assert!(!is_scratch_path("/some/path/main.rs"));
    assert!(!is_scratch_path("file.txt"));
    assert!(!is_scratch_path("/path/to/[partial"));
    assert!(!is_scratch_path("/path/to/partial]"));
}

#[test]
fn path_names_are_those_of_the_last_component() {
    assert_eq!(path_name("/a/b.rs").as_deref(), Some("b.rs"));
    assert_eq!(path_name("/a/b/").as_deref(), Some("b"));
    assert_eq!(path_name("a/.").as_deref(), Some("a"));
    assert_eq!(path_name("a/.."), None);
    assert_eq!(path_name("/"), None);
    assert_eq!(path_name("."), None);
}

#[test]
fn scratch_buffers_are_neither_on_disk_nor_loaded() {
    let mut buffer = file_buffer("/tmp/[draft]", "x");
    assert!(is_scratch_buffer(&buffer, false));
    assert!(!is_scratch_buffer(&buffer, true));
    buffer.set_file_mtime(Some(1));
    assert!(!is_scratch_buffer(&buffer, false));
    assert!(!is_scratch_buffer(&Buffer::new_from_str("x"), false));
}

#[test]
fn open_file_updates_current_file_register() {
    let mut editor = editor();
    open(&mut editor, "/tmp/dir/main.rs", "hello\n");
    assert_eq!(editor.registers.get(Some('%')), "/tmp/dir/main.rs");
}

#[test]
fn scratch_buffer_does_not_update_percent_register() {
    let mut editor = editor();
    open(&mut editor, "/tmp/dir/main.rs", "hello\n");
    assert_eq!(editor.registers.get(Some('%')), "/tmp/dir/main.rs");

    // Opening a scratch buffer should NOT overwrite %
    editor.open_scratch_buffer("LspInfo", "some info");
    assert_eq!(editor.registers.get(Some('%')), "/tmp/dir/main.rs");
    assert!(editor.buffer().is_read_only());
    assert_eq!(editor.buffer().file_path(), Some("[LspInfo]"));

    // Switching back to the real file should preserve %
    editor.switch_to_buffer(0);
    assert_eq!(editor.registers.get(Some('%')), "/tmp/dir/main.rs");
}

#[test]
fn scratch_buffer_does_not_update_alternate_register() {
    let mut editor = editor();
    open(&mut editor, "/tmp/dir/main.rs", "hello\n");
    // Set # to a known value
    editor
        .registers
        .set_alternate_file("/tmp/dir/main.rs".to_string());

    // Open scratch buffer: it should NOT overwrite #
    editor.open_scratch_buffer("Scratch", "scratch content");
    assert_eq!(editor.registers.get(Some('#')), "/tmp/dir/main.rs");

    // Switching from scratch to real file should NOT set # to scratch path
    editor.switch_to_buffer(0);
    assert_eq!(editor.registers.get(Some('#')), "/tmp/dir/main.rs");
}

#[test]
fn file_switch_clears_stale_lsp_status_but_keeps_running_servers() {
    let mut editor = editor();
    open(&mut editor, "/tmp/dir/app.js", "const value = 1;\n");
    editor.lsp.active_lsp_servers.push((
        "javascript".to_string(),
        "typescript-language-server".to_string(),
    ));
    editor.set_lsp_status("LSP: typescript-language-server ready");
    editor.lsp.diagnostic_count = (2, 1, 0, 0);
    assert_eq!(
        editor.status_message(),
        "LSP: typescript-language-server ready"
    );

    open(&mut editor, "/tmp/dir/README.md", "# Notes\n");

    assert_eq!(editor.lsp.running_server_languages(), vec!["javascript"]);
    assert_eq!(editor.lsp.status, "");
    assert_eq!(editor.status_message(), "");
    assert_eq!(editor.get_diagnostic_count(), (0, 0, 0, 0));

    // The already-open path must use the same switch cleanup.
    editor.open_file("/tmp/dir/app.js", FileSource::Open(1));
    editor.set_lsp_status("Hover failed: stale test status");
    editor.open_file("/tmp/dir/README.md", FileSource::Open(2));
    assert_eq!(editor.lsp.status, "");
    assert_eq!(editor.status_message(), "");
    assert!(editor.lsp.needs_lsp_init);
    assert!(editor.lsp.diagnostics_stale);
}

#[test]
fn indentation_policy_is_buffer_local() {
    let mut editor = editor();
    let options = |tab_width, shift_width, expand_tab| IndentOptions {
        tab_width,
        shift_width,
        soft_tab_stop: shift_width,
        expand_tab,
        copy_indent: false,
    };
    let mut spaces = file_buffer("/tmp/spaces.rs", "fn spaces() {}\n");
    spaces.set_indent_options(options(2, 2, true));
    editor.open_file("/tmp/spaces.rs", FileSource::Loaded(spaces));
    let spaces_index = editor.current_buffer_index();
    let mut tabs = file_buffer("/tmp/tabs.rs", "fn tabs() {}\n");
    tabs.set_indent_options(options(8, 4, false));
    editor.open_file("/tmp/tabs.rs", FileSource::Loaded(tabs));
    assert_eq!(editor.indent_options().tab_width, 8);
    assert!(!editor.indent_options().expand_tab);
    editor.switch_to_buffer(spaces_index);
    assert_eq!(editor.indent_options().tab_width, 2);
    assert_eq!(editor.indent_options().shift_width, 2);
    assert_eq!(editor.options.indent.tab_width, 4);
}

#[test]
fn workspace_edit_on_unopened_file_does_not_claim_did_open_sent() {
    let mut editor = editor();
    open(&mut editor, "/tmp/opened.rs", "fn main() {}\n");
    let buffer_index = editor.push_buffer(file_buffer("/tmp/untouched.rs", "fn helper() {}\n"));

    let applied = editor.apply_lsp_edits_to_buffer_index(
        buffer_index,
        &vec![text_edit(0, 3, 0, 9, "renamed")],
    );
    assert!(applied, "apply should succeed");

    let state = editor
        .lsp
        .document_state("/tmp/untouched.rs")
        .expect("sync state for edited file should exist");
    assert!(
        !state.did_open_sent,
        "did_open_sent must remain false for files we never sent didOpen for"
    );
    assert!(
        state.is_modified(),
        "the edit must still be queued for sync"
    );
    assert_eq!(
        editor.buffer_at(buffer_index).unwrap().to_text(),
        "fn renamed() {}\n"
    );
    assert_eq!(editor.undo.len(), 1);
}

fn text_edit(
    start_line: u32,
    start_char: u32,
    end_line: u32,
    end_char: u32,
    new_text: &str,
) -> TextEdit {
    TextEdit {
        range: LspRange::new(
            Position::new(start_line, start_char),
            Position::new(end_line, end_char),
        ),
        new_text: new_text.to_string(),
    }
}

#[test]
fn same_position_inserts_apply_in_array_order() {
    let mut buf = Buffer::new_from_str("line1\n");
    let all_applied = apply_text_edits_to_buffer(
        &mut buf,
        &vec![text_edit(0, 0, 0, 0, "A"), text_edit(0, 0, 0, 0, "B")],
    );
    assert!(all_applied);
    assert_eq!(buf.to_text(), "ABline1\n");
}

#[test]
fn insert_at_sibling_replace_start_is_not_consumed() {
    let mut buf = Buffer::new_from_str("foo bar\n");
    let all_applied = apply_text_edits_to_buffer(
        &mut buf,
        &vec![text_edit(0, 0, 0, 0, "I"), text_edit(0, 0, 0, 3, "X")],
    );
    assert!(all_applied);
    assert_eq!(buf.to_text(), "IX bar\n");
}

#[test]
fn out_of_bounds_edit_reports_failure() {
    let mut editor = editor();
    let applied =
        editor.apply_lsp_edits_to_buffer_index(0, &vec![text_edit(999, 0, 999, 5, "x")]);
    assert!(!applied, "dropped out-of-bounds edit must report failure");

    // Sanity: a valid edit still reports success.
    let applied = editor.apply_lsp_edits_to_buffer_index(0, &vec![text_edit(0, 0, 0, 0, "ok")]);
    assert!(applied);
    assert_eq!(editor.buffer().to_text(), "ok");
    assert!(!editor.apply_lsp_edits_to_buffer_index(9, &vec![]));
}

#[test]
fn edits_on_several_lines_speak_of_the_text_before_them() {
    let mut buf = Buffer::new_from_str("one\ntwo\nthree\n");
    let all = apply_text_edits_to_buffer(
        &mut buf,
        &vec![
            text_edit(0, 0, 0, 3, "1\r\n1"),
            text_edit(2, 0, 2, 5, "3"),
            text_edit(1, 3, 1, 3, "!"),
        ],
    );
    assert!(all);
    assert_eq!(buf.to_text(), "1\n1\ntwo!\n3\n");
    assert_eq!(normalize_for_buffer("a\r\nb\rc\n"), "a\nb\nc\n");
}

#[test]
fn next_prev_buffer_skip_scratch_for_registers() {
    let mut editor = editor();
    open(&mut editor, "/tmp/main.rs", "hello\n");
    editor.open_scratch_buffer("Info", "info");

    // next_buffer wraps around
    editor.next_buffer();
    assert_eq!(editor.registers.get(Some('%')), "/tmp/main.rs");
    assert_eq!(editor.current_buffer_index(), 0);

    // prev_buffer back to scratch: % should remain the real file
    editor.prev_buffer();
    assert_eq!(editor.registers.get(Some('%')), "/tmp/main.rs");
    assert_eq!(editor.buffer().file_path(), Some("[Info]"));
}

#[test]
fn switching_closes_the_file_that_was_shown() {
    let mut editor = editor();
    open(&mut editor, "/tmp/main.rs", "hello\n");
    editor.open_scratch_buffer("Info", "info");
    editor.prev_buffer();
    assert_eq!(
        editor.lsp.pending_did_close_file.as_deref(),
        Some("[Info]")
    );
    editor.next_buffer();
    assert_eq!(
        editor.lsp.pending_did_close_file.as_deref(),
        Some("/tmp/main.rs")
    );
}

#[test]
fn buffers_are_listed_with_their_marks() {
    let mut editor = editor();
    open(&mut editor, "/tmp/a.rs", "a\n");
    editor.buffer_mut().insert_text_at(0, CharCol(0), "x");
    assert_eq!(editor.buffer_names(), vec!["[No Name]", "/tmp/a.rs"]);
    assert_eq!(editor.list_buffers(), "   1: [No Name]\n%+ 2: /tmp/a.rs\n");
    assert_eq!(editor.buffer_count(), 2);
}

#[test]
fn deleting_the_last_buffer_asks_to_quit() {
    let mut editor = editor();
    open(&mut editor, "/tmp/a.rs", "a\n");
    assert!(!editor.delete_current_buffer());
    assert_eq!(editor.buffer_count(), 1);
    assert!(editor.delete_current_buffer());
    assert_eq!(editor.buffer_count(), 1);
}

#[test]
fn buffers_keep_their_ids_when_others_go() {
    let mut editor = editor();
    open(&mut editor, "/tmp/a.rs", "a\n");
    let a = editor.buffer().id();
    open(&mut editor, "/tmp/b.rs", "b\n");
    let b = editor.buffer().id();
    assert_ne!(a, b);
    editor.switch_to_buffer(0);
    editor.delete_current_buffer();
    assert_eq!(editor.find_buffer_index_by_id(b), Some(1));
    assert_eq!(
        editor.get_buffer_by_id(a).unwrap().file_path(),
        Some("/tmp/a.rs")
    );
    assert!(editor.get_buffer_by_id(99).is_none());
}

fn answer(exists: bool, changed: Result<bool, String>, saved: Result<Option<u64>, String>) -> DiskAnswer {
    DiskAnswer {
        exists,
        changed,
        saved,
    }
}

#[test]
fn saving_all_goes_on_past_buffers_that_cannot_be_saved() {
    let mut editor = editor();
    editor.buffer_mut().insert_text_at(0, CharCol(0), "unnamed");
    for (path, read_only, mtime) in [
        ("/tmp/a.rs", false, None),
        ("/tmp/ro.rs", true, None),
        ("/tmp/gone.rs", false, Some(1)),
        ("/tmp/odd.rs", false, Some(1)),
        ("/tmp/full.rs", false, None),
    ] {
        open(&mut editor, path, "x\n");
        editor.buffer_mut().insert_text_at(0, CharCol(0), "y");
        editor.buffer_mut().set_read_only(read_only);
        editor.buffer_mut().set_file_mtime(mtime);
    }
    editor.open_scratch_buffer("Info", "info");
    let ok = || answer(true, Ok(false), Ok(Some(7)));
    let disk = vec![
        ok(),
        ok(),
        ok(),
        answer(true, Ok(true), Ok(None)),
        answer(true, Err("io".to_string()), Ok(None)),
        answer(true, Ok(false), Err("disk full".to_string())),
        answer(false, Ok(false), Ok(None)),
    ];
    let (written, errors) = editor.write_all_modified_buffers(false, &disk);
    assert_eq!(written, 1);
    assert_eq!(
        errors,
        vec![
            "E141: No file name for buffer 1",
            "E45: 'readonly' option is set (add ! to override): /tmp/ro.rs",
            "E211: File changed since editing started (add ! to override): /tmp/gone.rs",
            "Failed to check /tmp/odd.rs before saving: io",
            "Failed to save /tmp/full.rs: disk full",
        ]
    );
    assert!(!editor.buffer_index_is_modified(1));
    assert_eq!(editor.buffer_at(1).unwrap().file_mtime(), Some(7));
    assert!(editor
        .lsp
        .document_state("/tmp/a.rs")
        .unwrap()
        .should_send_save());
    let (written, _) = editor.write_all_modified_buffers(true, &disk);
    assert_eq!(written, 3);
    assert!(matches!(
        editor.write_step(1, false, true, None),
        WriteStep::Skip
    ));
}

#[test]
fn a_loaded_file_is_asked_for_before_it_is_overwritten() {
    let mut editor = editor();
    open(&mut editor, "/tmp/a.rs", "x\n");
    editor.buffer_mut().insert_text_at(0, CharCol(0), "y");
    editor.buffer_mut().set_file_mtime(Some(3));
    assert!(matches!(
        editor.write_step(1, false, true, None),
        WriteStep::AskDisk(path) if path == "/tmp/a.rs"
    ));
    assert!(matches!(
        editor.write_step(1, true, true, None),
        WriteStep::Write(path) if path == "/tmp/a.rs"
    ));
    assert!(editor
        .write_through_workspace_edit_buffer(1, Some(true))
        .is_none());
    assert!(editor
        .write_through_workspace_edit_buffer(1, None)
        .is_none());
    assert_eq!(
        editor.write_through_workspace_edit_buffer(1, Some(false)),
        Some(("/tmp/a.rs".to_string(), "yx\n".to_string()))
    );
}

#[test]
fn files_keep_their_line_ends() {
    let mut buffer = Buffer::new_from_str("a\nb\n");
    assert_eq!(file_content(&buffer), "a\nb\n");
    buffer.set_line_ending(LineEnding::Crlf);
    assert_eq!(file_content(&buffer), "a\r\nb\r\n");
    buffer.set_line_ending(LineEnding::Cr);
    assert_eq!(file_content(&buffer), "a\rb\r");
}

#[test]
fn recorded_changes_make_a_buffer_unsaved() {
    let mut editor = editor();
    let at = CursorPos {
        line: 0,
        col: GraphemeCol(0),
    };
    assert!(!editor.buffer_index_is_modified(0));
    editor.push_recorded_undo(vec![], at, at);
    assert!(editor.buffer_index_is_modified(0));
    editor.note_saved(0, None);
    assert!(!editor.buffer_index_is_modified(0));
    assert!(!editor.buffer_index_is_modified(8));
}

#[test]
fn buffers_in_windows_and_tabs_are_open() {
    let mut editor = editor();
    let hidden = editor.push_buffer(file_buffer("/tmp/h.rs", ""));
    assert!(editor.buffer_is_open_in_ui(0, &vec![]));
    assert!(!editor.buffer_is_open_in_ui(hidden, &vec![]));
    assert!(editor.buffer_is_open_in_ui(hidden, &vec![hidden]));
    assert!(!editor.buffer_is_open_in_ui(9, &vec![9]));
}

#[test]
fn language_names_prefer_the_catalogues_own() {
    let own = CatalogLanguage {
        id: "tsx".to_string(),
        lsp_id: "tsx".to_string(),
    };
    let mapped = CatalogLanguage {
        id: "cpp".to_string(),
        lsp_id: "c++".to_string(),
    };
    assert_eq!(
        editor().language_id_for_path(Some(&own), Some("typescriptreact")).as_deref(),
        Some("typescriptreact")
    );
    assert_eq!(
        editor().language_id_for_path(Some(&own), None).as_deref(),
        Some("tsx")
    );
    assert_eq!(
        editor().language_id_for_path(Some(&mapped), Some("cpp")).as_deref(),
        Some("c++")
    );
    assert_eq!(editor().language_id_for_path(None, Some("rust")).as_deref(), Some("rust"));
    assert_eq!(editor().language_id_for_path(None, None), None);
}

#[test]
fn saved_texts_read_back_whatever_their_line_ends() {
    for (ending, written) in [
        (LineEnding::Lf, "a\n\nb"),
        (LineEnding::Crlf, "a\r\n\r\nb"),
        (LineEnding::Cr, "a\r\rb"),
        (LineEnding::Mixed, "a\n\nb"),
    ] {
        let mut buffer = Buffer::new_from_str("a\n\nb");
        buffer.set_line_ending(ending);
        let content = file_content(&buffer);
        assert_eq!(content, written);
        assert_eq!(normalize_for_buffer(&content), "a\n\nb");
    }
}
