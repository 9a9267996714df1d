use ovim_core::buffer::Buffer;
use ovim_core::editor::buffer_manager::FileSource;
use ovim_core::editor::clipboard::NoClipboard;
use ovim_core::editor::Editor;

fn editor() -> Editor<NoClipboard> {
    Editor::with_content("", NoClipboard::new())
}

fn load(editor: &mut Editor<NoClipboard>, path: &str) {
    let canonical: Vec<Option<String>> = (0..editor.buffer_count())
        .map(|k| {
            editor
                .buffer_at(k)
                .and_then(|b| b.file_path())
                .map(|p| p.to_string())
        })
        .collect();
    match editor.find_buffer_by_path(path, &canonical) {
        Some(index) => editor.open_file(path, FileSource::Open(index)),
        None => {
            let mut buffer = Buffer::new_from_str("text\n");
            buffer.set_file_path(path.to_string());
            editor.open_file(path, FileSource::Loaded(buffer));
        }
    }
}

#[test]
fn opening_already_open_file_updates_tab_title() {
    let mut editor = editor();
    load(&mut editor, "/tmp/lib.rs");

    editor.new_tab();
    load(&mut editor, "/tmp/shorthands.rs");
    assert_eq!(
        editor.get_tab_title(editor.current_tab_index()),
        "shorthands.rs"
    );

    // lib.rs is already open in a buffer
    load(&mut editor, "/tmp/lib.rs");
    assert_eq!(editor.get_tab_title(editor.current_tab_index()), "lib.rs");
}

#[test]
fn tab_title_follows_buffer_switch() {
    let mut editor = editor();
    load(&mut editor, "/tmp/a.rs");
    load(&mut editor, "/tmp/b.rs");
    assert_eq!(editor.get_tab_title(0), "b.rs");

    editor.prev_buffer();
    assert_eq!(editor.get_tab_title(0), "a.rs");
    editor.next_buffer();
    assert_eq!(editor.get_tab_title(0), "b.rs");
}

#[test]
fn deleting_buffer_does_not_corrupt_other_tabs() {
    let mut editor = editor();
    load(&mut editor, "/tmp/a.rs");
    editor.new_tab();
    load(&mut editor, "/tmp/b.rs");
    editor.new_tab();
    load(&mut editor, "/tmp/c.rs");

    // Delete b.rs's buffer from tab 2 (index 1)
    editor.goto_tab(1);
    assert_eq!(editor.buffer().file_path(), Some("/tmp/b.rs"));
    editor.delete_current_buffer();

    // The surviving tabs must still show their own files
    editor.goto_tab(0);
    assert_eq!(editor.buffer().file_path(), Some("/tmp/a.rs"));
    assert_eq!(editor.get_tab_title(0), "a.rs");
    editor.goto_tab(2);
    assert_eq!(editor.buffer().file_path(), Some("/tmp/c.rs"));
    assert_eq!(editor.get_tab_title(2), "c.rs");
}

#[test]
fn new_tab_inserts_after_current_tab() {
    let mut editor = editor();
    load(&mut editor, "/tmp/a.rs");
    editor.new_tab();
    load(&mut editor, "/tmp/b.rs");
    editor.new_tab();
    load(&mut editor, "/tmp/c.rs");

    editor.first_tab();
    editor.new_tab();

    assert_eq!(editor.tab_count(), 4);
    assert_eq!(editor.current_tab_index(), 1);
    assert_eq!(editor.get_tab_title(0), "a.rs");
    assert_eq!(editor.get_tab_title(1), "[No Name]");
    assert_eq!(editor.get_tab_title(2), "b.rs");
    assert_eq!(editor.get_tab_title(3), "c.rs");
}

#[test]
fn numeric_filename_renders_as_its_own_title() {
    let mut editor = editor();
    load(&mut editor, "/tmp/1");
    assert_eq!(editor.get_tab_title(0), "1");
}

#[test]
fn scratch_tab_derives_bracket_title() {
    let mut editor = editor();
    editor.open_scratch_buffer_in_new_tab("Diff abc123", "diff content");
    assert_eq!(
        editor.get_tab_title(editor.current_tab_index()),
        "[Diff abc123]"
    );
    assert!(!editor.lsp.needs_lsp_init);
}

#[test]
fn a_diff_tab_is_named_without_a_path() {
    let mut editor = editor();
    editor.open_diff_buffer_in_new_tab("Diff · topic", "content");
    assert_eq!(editor.get_tab_title(1), "[No Name]");
    assert_eq!(editor.buffer().display_name(), Some("Diff · topic"));
    assert_eq!(editor.buffer().file_path(), None);
    assert!(editor.buffer().is_read_only());
}

#[test]
fn tabs_go_round() {
    let mut editor = editor();
    editor.new_tab();
    editor.new_tab();
    assert_eq!(editor.current_tab_index(), 2);
    editor.next_tab();
    assert_eq!(editor.current_tab_index(), 0);
    editor.previous_tab();
    assert_eq!(editor.current_tab_index(), 2);
    editor.goto_tab(9);
    assert_eq!(editor.current_tab_index(), 2);
    editor.last_tab();
    assert_eq!(editor.current_tab_index(), 2);
    editor.close_current_tab();
    assert_eq!(editor.tab_count(), 2);
    editor.close_other_tabs();
    assert_eq!(editor.tab_count(), 1);
    editor.close_current_tab();
    assert_eq!(editor.tab_count(), 1);
}

#[test]
fn closing_a_tab_returns_to_where_a_jump_came_from() {
    let mut editor = editor();
    load(&mut editor, "/tmp/a.rs");
    editor.new_tab();
    load(&mut editor, "/tmp/b.rs");
    editor.first_tab();
    let origin = editor.tab_page_manager().tabs[0].id;
    editor.new_tab_for_definition();
    let here = editor.current_tab_index();
    editor.tab_page_manager_mut().tabs[here].definition_origin = Some(origin);
    editor.close_current_tab();
    assert_eq!(editor.get_tab_title(editor.current_tab_index()), "a.rs");
}
