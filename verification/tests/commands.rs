use ovim_core::buffer::Buffer;
use ovim_core::diff_review::highlight::PatchHighlights;
use ovim_core::diff_review::render::{render_custom, DiffLayout};
use ovim_core::editor::clipboard::NoClipboard;
use ovim_core::editor::input::helpers::{
    auto_indent_lines, clamp_cursor_to_buffer, dedent_line_insert, exit_visual_mode_to_normal,
    indent_line_insert,
};
use ovim_core::editor::lsp_state::DocumentSyncState;
use ovim_core::editor::motions::Motions;
use ovim_core::editor::register::RegisterManager;
use ovim_core::editor::{Editor, Mode};
use ovim_core::native_diff::{
    BaseKind, CustomReview, DiffFile, PatchLine, PatchLineKind, ReviewBase, ReviewPatch,
    ReviewSection, ReviewSectionLine, ReviewSnapshot,
};
use ovim_core::unicode::GraphemeCol;

fn at(text: &str, line: usize, col: usize) -> Buffer {
    let mut buffer = Buffer::new_from_str(text);
    buffer.set_position(line, GraphemeCol(col));
    buffer
}

fn place(buffer: &Buffer) -> (usize, usize) {
    (buffer.cursor().line(), buffer.cursor().col().0)
}

#[test]
fn ends_of_words_are_walked_backward() {
    let mut buffer = at("foo bar.baz\nqux\n", 1, 1);
    Motions::word_end_backward(&mut buffer, 1);
    assert_eq!(place(&buffer), (0, 10));
    Motions::word_end_backward(&mut buffer, 2);
    assert_eq!(place(&buffer), (0, 6));
    let mut buffer = at("foo bar.baz\nqux\n", 1, 1);
    Motions::word_end_backward_big(&mut buffer, 2);
    assert_eq!(place(&buffer), (0, 2));
}

#[test]
fn a_change_stays_at_the_end_of_its_word() {
    let mut buffer = at("foo bar\n", 0, 2);
    Motions::word_end_forward_prefer_current(&mut buffer, 1);
    assert_eq!(place(&buffer), (0, 2));
    Motions::word_end_forward(&mut buffer, 1);
    assert_eq!(place(&buffer), (0, 6));
    let mut buffer = at("a.b c\n", 0, 2);
    Motions::word_end_forward_big_prefer_current(&mut buffer, 1);
    assert_eq!(place(&buffer), (0, 2));
}

#[test]
fn the_text_of_a_line_is_found() {
    let mut buffer = at("    text\n", 0, 7);
    Motions::first_non_blank_underscore(&mut buffer);
    assert_eq!(place(&buffer), (0, 4));
}

#[test]
fn lines_are_indented_while_typing() {
    let mut editor = Editor::with_content("ab\n", NoClipboard::new());
    editor.buffer_mut().set_position(0, GraphemeCol(2));
    indent_line_insert(&mut editor);
    assert_eq!(editor.buffer().to_text(), "    ab\n");
    assert_eq!(place(editor.buffer()), (0, 6));
    dedent_line_insert(&mut editor);
    assert_eq!(editor.buffer().to_text(), "ab\n");
    assert_eq!(place(editor.buffer()), (0, 2));
}

#[test]
fn buffers_are_reindented_without_a_record() {
    let editor = Editor::with_content("", NoClipboard::new());
    let mut buffer = Buffer::new_from_str("a {\nb\n}\n");
    assert_eq!(auto_indent_lines(&mut buffer, 0, 3, editor.indent_options()), 1);
    assert_eq!(buffer.to_text(), "a {\n    b\n}\n");
}

#[test]
fn the_cursor_comes_back_into_the_text() {
    let mut editor = Editor::with_content("ab\nc\n", NoClipboard::new());
    editor.buffer_mut().set_position(9, GraphemeCol(9));
    clamp_cursor_to_buffer(&mut editor);
    assert_eq!(place(editor.buffer()), (1, 0));
}

#[test]
fn leaving_visual_mode_forgets_the_selection() {
    let mut editor = Editor::with_content("ab\nc\n", NoClipboard::new());
    let mut input = editor.input_state();
    input.mode = Mode::Visual;
    input.visual_start = Some((0, 1));
    editor.set_input_state(input);
    exit_visual_mode_to_normal(&mut editor);
    let input = editor.input_state();
    assert_eq!(input.mode, Mode::Normal);
    assert_eq!(input.visual_start, None);
    assert!(input.last_visual.is_some());
}

#[test]
fn read_only_registers_hold_what_was_set() {
    let mut registers = RegisterManager::with_clipboard_backend(NoClipboard::new());
    registers.set_last_inserted("typed".to_string());
    registers.set_last_command("w".to_string());
    registers.set_last_search("needle".to_string());
    registers.set_current_file("a.rs".to_string());
    registers.set_alternate_file("b.rs".to_string());
    assert_eq!(registers.get_last_inserted(), "typed");
    assert_eq!(registers.get_last_command(), "w");
    assert_eq!(registers.get_last_search(), "needle");
    assert_eq!(registers.get_current_file(), "a.rs");
    assert_eq!(registers.get_alternate_file(), "b.rs");
    assert_eq!(registers.get(Some('.')), "typed");
    assert_eq!(registers.get(Some(':')), "w");
    assert_eq!(registers.get(Some('/')), "needle");
    assert_eq!(registers.get(Some('%')), "a.rs");
    assert_eq!(registers.get(Some('#')), "b.rs");
    for name in ['a', 'Z', '5', '"', '_', '-', '+', '*', '.', '%'] {
        assert!(RegisterManager::<NoClipboard>::is_valid_name(name));
    }
    assert!(!RegisterManager::<NoClipboard>::is_valid_name('!'));
}

#[test]
fn a_document_is_settled_once_its_newest_change_was_sent() {
    let mut state = DocumentSyncState::new();
    state.mark_change_queued("two".to_string(), 2);
    assert!(state.is_modified());
    assert_eq!(state.queued_content(), Some("two"));
    state.mark_change_flushed("one".to_string(), 1, Some("one"));
    assert!(state.is_modified());
    assert_eq!(state.flushed_content(), Some("one"));
    state.mark_change_flushed("two".to_string(), 2, Some("two"));
    assert!(!state.is_modified());
    assert_eq!(state.queued_content(), None);
    state.mark_saved();
    assert!(state.should_send_save());
    state.mark_save_sent();
    assert!(!state.should_send_save());
}

#[test]
fn buffers_are_reached_by_their_ids() {
    let mut editor = Editor::with_content("a\n", NoClipboard::new());
    let id = editor.buffer().id();
    editor.get_buffer_by_id_mut(id).unwrap().set_position(0, GraphemeCol(1));
    assert_eq!(place(editor.buffer()), (0, 1));
    assert!(editor.get_buffer_by_id_mut(id + 100).is_none());
}

fn section_line(kind: PatchLineKind, text: &str, source: usize) -> ReviewSectionLine {
    ReviewSectionLine {
        kind,
        text: text.to_string(),
        source_patch_line: source,
        old_line: (kind != PatchLineKind::Added).then_some(source),
        new_line: (kind != PatchLineKind::Removed).then_some(source),
    }
}

fn custom() -> CustomReview {
    let line = |kind, old_line, new_line| PatchLine {
        kind,
        file: Some(0),
        old_line,
        new_line,
    };
    CustomReview {
        snapshot: ReviewSnapshot {
            id: "s1".to_string(),
            patch: ReviewPatch {
                root: "/repo".to_string(),
                base: ReviewBase {
                    name: "main".to_string(),
                    spec: "main".to_string(),
                    kind: BaseKind::DefaultBranch,
                    remote: None,
                    ever_fetched: false,
                    fetched_ago: None,
                },
                head: "topic".to_string(),
                merge_base: None,
                comparison_base_oid: None,
                ahead: 1,
                behind: 0,
                text: "@@ -1 +1 @@\n-old\n+new\n".to_string(),
                lines: vec![
                    line(PatchLineKind::HunkHeader, Some(1), Some(1)),
                    line(PatchLineKind::Removed, Some(1), None),
                    line(PatchLineKind::Added, None, Some(1)),
                ],
                files: vec![DiffFile {
                    path: "a.rs".to_string(),
                    old_path: None,
                    status: "modified".to_string(),
                    additions: 1,
                    deletions: 1,
                    binary: false,
                }],
                truncated: false,
            },
            blocks: vec![],
        },
        sections: vec![ReviewSection {
            label: Some("Moved".to_string()),
            old_path: Some("a.rs".to_string()),
            new_path: None,
            lines: vec![
                section_line(PatchLineKind::Removed, "old", 1),
                section_line(PatchLineKind::Added, "new", 2),
            ],
            equal_changes: vec![1, 2],
        }],
    }
}

#[test]
fn rearranged_reviews_show_their_sections() {
    let none = || PatchHighlights::from_lines(vec![]);
    let unified = render_custom(&custom(), none(), "Plan", DiffLayout::Unified, 80, 4, false);
    assert_eq!(unified.title, "Diff · Plan");
    let lines: Vec<&str> = unified.text.lines().collect();
    assert_eq!(lines[0], "Plan");
    assert_eq!(lines[1], "main → topic / worktree · +1 −1 · saved comparison");
    let heading = unified.hunk_lines[0];
    assert_eq!(lines[heading], "── Moved · a.rs → ∅");
    assert_eq!(&lines[heading + 1..heading + 3], ["-old", "+new"]);
    assert_eq!(unified.file_lines, vec![heading]);
    let target = unified.custom_targets[heading + 1].as_ref().unwrap();
    assert_eq!(target.old, Some(("a.rs".to_string(), 1)));
    assert_eq!(target.new, None);
    assert_eq!(unified.custom_targets.len(), unified.rows.len());

    let split = render_custom(&custom(), none(), "Plan", DiffLayout::Split, 80, 4, false);
    let row = &split.rows[split.hunk_lines[0] + 1];
    assert_eq!(row.left.unwrap().patch_line, 1);
    assert_eq!(row.right.unwrap().patch_line, 2);
}

#[test]
fn equal_changes_can_be_hidden() {
    let none = PatchHighlights::from_lines(vec![]);
    let hidden = render_custom(&custom(), none, "Plan", DiffLayout::Split, 80, 4, true);
    assert!(hidden.hunk_lines.is_empty());
    assert_eq!(hidden.file_lines, vec![usize::MAX]);
    assert_eq!(hidden.text.lines().last(), Some("No unequal changes"));
}

#[test]
fn all_registers_that_hold_something_are_listed() {
    let mut registers = RegisterManager::with_clipboard_backend(NoClipboard::new());
    registers.set_alternate_file("b.rs".to_string());
    registers.set_last_inserted("hi".to_string());
    assert_eq!(
        registers.list_registers(),
        vec![
            ("\"#".to_string(), "b.rs".to_string()),
            ("\".".to_string(), "hi".to_string())
        ]
    );
}
