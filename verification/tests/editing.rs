use ovim_core::buffer::{Buffer, Edit};
use ovim_core::display::{control_char_caret, grapheme_display_width};
use ovim_core::editor::clipboard::NoClipboard;
use ovim_core::editor::input::helpers::{
    auto_indent_lines_with_tracking, dedent_lines_with_tracking, delete_char_before_cursor,
    delete_to_line_start_insert, delete_word_backward_insert, electric_dedent_close_bracket,
    indent_lines_with_tracking, insert_char, insert_line_above, insert_line_below, insert_newline,
    insert_tab, move_down, move_left, move_right, move_up, yank_line, yank_to_end_of_line,
    yank_word,
};
use ovim_core::editor::input::paste::{paste_after, paste_before};
use ovim_core::editor::input::search::{
    find_next, get_visual_selection_text, search_visual_selection_backward,
    search_visual_selection_forward,
};
use ovim_core::editor::input::text_objects::{from_key, TextObjectType};
use ovim_core::editor::input::visual::{
    delete_visual_selection, delete_visual_selection_with_token, lowercase_visual_selection, replace_visual_selection,
    toggle_case_visual_selection, uppercase_visual_selection, yank_visual_selection,
};
use ovim_core::editor::keys::KeyCode;
use ovim_core::editor::motions::Motions;
use ovim_core::editor::register::RegisterType;
use ovim_core::editor::{CursorPos, Editor, Mode};
use ovim_core::fmt::{byte_len, decimal, join, repeat_char, split_breaks, text_lines};
use ovim_core::indentation::{leading_width, visual_width, IndentOptions};
use ovim_core::syntax::{detect_from_path, Language};
use ovim_core::text::{find, same_text, starts_with};
use ovim_core::text_map::TextMap;
use ovim_core::unicode::{
    char_to_grapheme_col, grapheme_count, grapheme_to_char_col, CharCol, GraphemeCol,
};

fn editor(text: &str) -> Editor<NoClipboard> {
    Editor::with_content(text, NoClipboard::new())
}

fn at(editor: &mut Editor<NoClipboard>, line: usize, col: usize) {
    editor.buffer_mut().set_position(line, GraphemeCol(col));
}

fn place(editor: &Editor<NoClipboard>) -> (usize, usize) {
    let cursor = editor.buffer().cursor();
    (cursor.line(), cursor.col().0)
}

fn select(editor: &mut Editor<NoClipboard>, mode: Mode, start: (usize, usize), end: (usize, usize)) {
    at(editor, end.0, end.1);
    let mut input = editor.input_state();
    input.mode = mode;
    input.visual_start = Some(start);
    editor.set_input_state(input);
}

#[test]
fn words_are_walked() {
    let mut buffer = Buffer::new_from_str("foo.bar  baz\n\nqux\n");
    Motions::word_forward(&mut buffer, 1);
    assert_eq!(buffer.cursor().col().0, 3);
    Motions::word_forward(&mut buffer, 2);
    assert_eq!(buffer.cursor().col().0, 9);
    Motions::word_backward(&mut buffer, 1);
    assert_eq!(buffer.cursor().col().0, 4);
    Motions::word_end_forward(&mut buffer, 1);
    assert_eq!(buffer.cursor().col().0, 6);
    buffer.set_position(0, GraphemeCol(0));
    Motions::word_forward_big(&mut buffer, 1);
    assert_eq!(buffer.cursor().col().0, 9);
    Motions::word_backward_big(&mut buffer, 1);
    assert_eq!(buffer.cursor().col().0, 0);
    Motions::word_end_forward_big(&mut buffer, 1);
    assert_eq!(buffer.cursor().col().0, 6);
}

#[test]
fn characters_are_found() {
    let mut buffer = Buffer::new_from_str("abcabc\n");
    assert!(Motions::find_char_forward(&mut buffer, 'c', 2));
    assert_eq!(buffer.cursor().col().0, 5);
    assert!(!Motions::find_char_forward(&mut buffer, 'c', 1));
    assert!(Motions::find_char_backward(&mut buffer, 'a', 1));
    assert_eq!(buffer.cursor().col().0, 3);
    assert!(Motions::till_char_forward(&mut buffer, 'c', 1));
    assert_eq!(buffer.cursor().col().0, 4);
    assert!(Motions::till_char_backward(&mut buffer, 'b', 1));
    assert_eq!(buffer.cursor().col().0, 2);
}

#[test]
fn line_motions_find_the_text() {
    let mut buffer = Buffer::new_from_str("  one  \n\ttwo\n");
    Motions::first_non_blank(&mut buffer);
    assert_eq!(buffer.cursor().col().0, 2);
    Motions::last_non_blank(&mut buffer);
    assert_eq!(buffer.cursor().col().0, 4);
    Motions::plus_motion(&mut buffer, 1);
    assert_eq!((buffer.cursor().line(), buffer.cursor().col().0), (1, 1));
    Motions::minus_motion(&mut buffer, 1);
    assert_eq!((buffer.cursor().line(), buffer.cursor().col().0), (0, 2));
}

#[test]
fn the_cursor_moves_and_keeps_its_column() {
    let mut e = editor("long line\nab\nlong line\n");
    at(&mut e, 0, 5);
    move_down(&mut e);
    assert_eq!(place(&e), (1, 1));
    move_down(&mut e);
    assert_eq!(place(&e), (2, 5));
    move_up(&mut e);
    move_left(&mut e);
    assert_eq!(place(&e), (1, 0));
    move_right(&mut e);
    assert_eq!(place(&e), (1, 1));
}

#[test]
fn typing_inserts_and_erases() {
    let mut e = editor("");
    e.set_mode(Mode::Insert);
    for c in "foo bar".chars() {
        insert_char(&mut e, c);
    }
    assert_eq!(e.buffer().to_text(), "foo bar");
    delete_char_before_cursor(&mut e);
    assert_eq!(e.buffer().to_text(), "foo ba");
    delete_word_backward_insert(&mut e);
    assert_eq!(e.buffer().to_text(), "foo ");
    delete_to_line_start_insert(&mut e);
    assert_eq!(e.buffer().to_text(), "");
    insert_tab(&mut e);
    assert_eq!(e.buffer().to_text(), "    ");
    delete_char_before_cursor(&mut e);
    assert_eq!(e.buffer().to_text(), "");
}

#[test]
fn new_lines_take_their_indentation() {
    let mut e = editor("fn a() {\n");
    e.set_file_path("/tmp/a.rs".to_string());
    e.set_mode(Mode::Insert);
    at(&mut e, 0, 8);
    insert_newline(&mut e);
    assert_eq!(e.buffer().to_text(), "fn a() {\n    \n");
    assert_eq!(place(&e), (1, 4));
    insert_char(&mut e, '}');
    electric_dedent_close_bracket(&mut e, '}');
    let mut e = editor("    x\n");
    assert!(insert_line_below(&mut e));
    assert_eq!(e.buffer().to_text(), "    x\n    \n");
    let mut e = editor("    x\n");
    assert!(insert_line_above(&mut e));
    assert_eq!(e.buffer().to_text(), "    \n    x\n");
}

#[test]
fn lines_are_shifted_as_one_change() {
    let mut e = editor("a\n\nb\n");
    let here = CursorPos {
        line: 0,
        col: GraphemeCol(0),
    };
    indent_lines_with_tracking(&mut e, 0, 3, here);
    assert_eq!(e.buffer().to_text(), "    a\n\n    b\n");
    assert_eq!(e.undo.len(), 1);
    dedent_lines_with_tracking(&mut e, 0, 3, here);
    assert_eq!(e.buffer().to_text(), "a\n\nb\n");
    assert_eq!(e.undo.len(), 2);
    let mut e = editor("if a {\nb\n}\n");
    e.set_file_path("/tmp/a.rs".to_string());
    let options = e.indent_options();
    assert_eq!(auto_indent_lines_with_tracking(&mut e, 0, 3, options), 1);
    assert_eq!(e.buffer().to_text(), "if a {\n    b\n}\n");
}

#[test]
fn texts_are_pasted_by_their_type() {
    let mut e = editor("abc\n");
    e.yank_to_register_with_type("XY".to_string(), RegisterType::Character);
    assert!(paste_after(&mut e, 2));
    assert_eq!(e.buffer().to_text(), "aXYXYbc\n");
    let mut e = editor("abc\n");
    e.yank_to_register_with_type("new\n".to_string(), RegisterType::Line);
    assert!(paste_before(&mut e, 1));
    assert_eq!(e.buffer().to_text(), "new\nabc\n");
    assert!(paste_after(&mut e, 1));
    assert_eq!(e.buffer().to_text(), "new\nnew\nabc\n");
}

#[test]
fn selections_are_cut_and_copied() {
    let mut e = editor("hello world\nsecond\n");
    select(&mut e, Mode::Visual, (0, 0), (0, 4));
    assert_eq!(get_visual_selection_text(&e).as_deref(), Some("hello"));
    delete_visual_selection(&mut e);
    assert_eq!(e.buffer().to_text(), " world\nsecond\n");
    assert_eq!(e.registers.get(Some('-')), "hello");
    select(&mut e, Mode::VisualLine, (1, 0), (1, 0));
    yank_visual_selection(&mut e);
    assert_eq!(e.registers.get_default_with_type(), ("second\n", RegisterType::Line));
    let mut e = editor("abc\ndef\n");
    select(&mut e, Mode::VisualBlock, (0, 1), (1, 2));
    delete_visual_selection(&mut e);
    assert_eq!(e.buffer().to_text(), "a\nd\n");
}

#[test]
fn selections_change_their_letters() {
    let mut e = editor("aBß\n");
    select(&mut e, Mode::Visual, (0, 0), (0, 2));
    uppercase_visual_selection(&mut e);
    assert_eq!(e.buffer().to_text(), "ABSS\n");
    select(&mut e, Mode::Visual, (0, 0), (0, 1));
    lowercase_visual_selection(&mut e);
    assert_eq!(e.buffer().to_text(), "abSS\n");
    select(&mut e, Mode::Visual, (0, 0), (0, 3));
    toggle_case_visual_selection(&mut e);
    assert_eq!(e.buffer().to_text(), "ABss\n");
    select(&mut e, Mode::Visual, (0, 0), (0, 1));
    replace_visual_selection(&mut e, '-');
    assert_eq!(e.buffer().to_text(), "--ss\n");
}

#[test]
fn selections_are_searched_for_literally() {
    let mut e = editor("a.b axb a.b\n");
    select(&mut e, Mode::Visual, (0, 0), (0, 2));
    assert!(search_visual_selection_forward(&mut e));
    assert_eq!(place(&e), (0, 8));
    select(&mut e, Mode::Visual, (0, 10), (0, 8));
    assert!(search_visual_selection_backward(&mut e));
    assert_eq!(place(&e), (0, 0));
    assert_eq!(find_next(e.buffer(), "a.b", false, 0, 1, true), Some((0, 4)));
}

#[test]
fn texts_are_copied_without_a_selection() {
    let mut buffer = Buffer::new_from_str("one two\nthree\n");
    assert_eq!(yank_to_end_of_line(&buffer), "one two");
    assert_eq!(yank_line(&buffer, 2), "one two\nthree\n");
    assert_eq!(yank_word(&mut buffer, 1), "one ");
}

#[test]
fn keys_name_text_objects() {
    let e = editor("");
    assert_eq!(
        from_key(&e, KeyCode::Char('b'), true),
        Some(TextObjectType::Paired {
            open: '(',
            close: ')',
            inner: true
        })
    );
    assert_eq!(
        from_key(&e, KeyCode::Char('`'), false),
        Some(TextObjectType::Quote {
            char: '`',
            inner: false
        })
    );
    assert_eq!(
        from_key(&e, KeyCode::Char('i'), true),
        Some(TextObjectType::Indent {
            inner: true,
            tab_width: 4
        })
    );
    assert_eq!(from_key(&e, KeyCode::Char('q'), true), None);
    assert_eq!(from_key(&e, KeyCode::Enter, true), None);
}

#[test]
fn edits_are_logged_and_undo_each_other() {
    let mut buffer = Buffer::new_from_str("abc");
    buffer.insert_text_at(0, CharCol(1), "X");
    buffer.delete_range(0, CharCol(0), 0, CharCol(1));
    assert_eq!(buffer.to_text(), "Xbc");
    assert_eq!(
        buffer.edits_from(0),
        vec![
            Edit::Insert {
                offset: 1,
                text: "X".to_string()
            },
            Edit::Delete {
                offset: 0,
                text: "a".to_string()
            }
        ]
    );
    assert!(buffer.edits_since(3).is_none());
    buffer.replace_content("new");
    assert_eq!(buffer.to_text(), "new");
    assert_eq!(buffer.version(), 4);
}

#[test]
fn lines_and_columns_are_counted() {
    let buffer = Buffer::new_from_str("e\u{301}x\n\nlast");
    assert_eq!(buffer.line_count(), 3);
    assert_eq!(buffer.line_graphemes(0), 2);
    assert_eq!(buffer.line_content_len(0), 3);
    assert_eq!(buffer.line_to_char(2), 5);
    assert_eq!(buffer.char_to_line(4), 1);
    assert_eq!(buffer.offset(2, CharCol(99)), 9);
    assert_eq!(buffer.line_text(3), None);
    assert_eq!(grapheme_count("e\u{301}x"), 2);
    assert_eq!(grapheme_to_char_col("e\u{301}x", GraphemeCol(1)), CharCol(2));
    assert_eq!(char_to_grapheme_col("e\u{301}x", CharCol(2)), GraphemeCol(1));
}

#[test]
fn widths_are_those_of_the_screen() {
    assert_eq!(grapheme_display_width("界"), 2);
    assert_eq!(grapheme_display_width("a"), 1);
    assert_eq!(grapheme_display_width("\u{301}"), 0);
    assert_eq!(control_char_caret('\u{7f}'), Some(('^', '?')));
    assert_eq!(control_char_caret('\u{1}'), Some(('^', 'A')));
    assert_eq!(control_char_caret('a'), None);
}

#[test]
fn indentation_is_written_as_the_policy_says() {
    let tabs = IndentOptions {
        tab_width: 8,
        shift_width: 4,
        soft_tab_stop: 4,
        expand_tab: false,
        copy_indent: false,
    };
    assert_eq!(tabs.encode_indent(12), "\t    ");
    assert_eq!(tabs.next_indent_stop(5), 8);
    assert_eq!(tabs.previous_indent_stop(8), 4);
    let spaces = IndentOptions {
        expand_tab: true,
        ..tabs
    };
    assert_eq!(spaces.encode_indent(6), "      ");
    assert_eq!(leading_width("\t  x", 8), 10);
    assert_eq!(visual_width("a\tb", 4), 5);
}

#[test]
fn small_texts_are_put_together() {
    assert_eq!(decimal(0), "0");
    assert_eq!(decimal(1_234_567), "1234567");
    assert_eq!(repeat_char('=', 3), "===");
    assert_eq!(byte_len("æ界"), 5);
    assert_eq!(join(&vec!["a".to_string(), "b".to_string()], ", "), "a, b");
    assert_eq!(text_lines("a\r\nb\n"), vec!["a", "b"]);
    assert_eq!(split_breaks("a\n\n"), vec!["a", "", ""]);
    let chars: Vec<char> = "hello".chars().collect();
    assert!(starts_with(&chars, 1, "ell"));
    assert_eq!(find(&chars, 0, "lo"), Some(3));
    assert_eq!(find(&chars, 4, "lo"), None);
    assert!(same_text("a", "a") && !same_text("a", "b"));
    assert_eq!(detect_from_path("/x/y.rs"), Some(Language::Rust));
    assert_eq!(detect_from_path("/x.rs/y"), None);
    let mut map: TextMap<u8> = TextMap::new();
    map.insert("a", 1);
    map.insert("a", 2);
    map.insert("b", 3);
    assert_eq!(map.take("a"), Some(2));
    assert_eq!(map.get("a"), None);
    assert!(map.contains("b"));
}

fn undone(editor: &Editor<NoClipboard>) -> String {
    let mut text: Vec<char> = editor.buffer().to_text().chars().collect();
    for edit in editor.undo.last().unwrap().edits.iter().rev() {
        match edit {
            Edit::Insert { offset, text: new } => {
                text.drain(*offset..*offset + new.chars().count());
            }
            Edit::Delete { offset, text: gone } => {
                text.splice(*offset..*offset, gone.chars());
            }
        }
    }
    text.into_iter().collect()
}

#[test]
fn commands_are_undone_in_one_step() {
    let text = "fn a() {\nlet b = 1;\n\tc();\n}\n";
    let mut e = editor(text);
    let options = e.indent_options();
    assert_eq!(auto_indent_lines_with_tracking(&mut e, 0, 4, options), 2);
    assert_eq!(e.buffer().to_text(), "fn a() {\n    let b = 1;\n    c();\n}\n");
    assert_eq!(e.undo.len(), 1);
    assert_eq!(undone(&e), text);

    let mut e = editor(text);
    select(&mut e, Mode::VisualBlock, (0, 0), (2, 1));
    uppercase_visual_selection(&mut e);
    assert_eq!(e.undo.len(), 1);
    assert_ne!(e.buffer().to_text(), text);
    assert_eq!(undone(&e), text);

    let mut e = editor(text);
    select(&mut e, Mode::VisualLine, (1, 0), (2, 0));
    delete_visual_selection(&mut e);
    assert_eq!(e.buffer().to_text(), "fn a() {\n}\n");
    assert_eq!(undone(&e), text);
    e.undo.clear();
    at(&mut e, 0, 0);
    paste_after(&mut e, 2);
    assert_eq!(e.undo.len(), 1);
    assert_eq!(undone(&e), "fn a() {\n}\n");
}

#[test]
fn a_line_is_reindented_alone_as_in_its_document() {
    let text = "a {\nb {\nc;\n}\n}\n";
    let mut whole = editor(text);
    let options = whole.indent_options();
    auto_indent_lines_with_tracking(&mut whole, 0, 5, options);
    let mut one = editor(text);
    auto_indent_lines_with_tracking(&mut one, 2, 3, options);
    assert_eq!(one.buffer().content(2), "        c;");
    assert_eq!(whole.buffer().content(2), one.buffer().content(2));
    assert_eq!(one.buffer().content(1), "b {");
}

#[test]
fn a_single_linewise_paste_is_a_line_of_its_own() {
    let mut e = editor("abc\n");
    e.registers
        .set_with_type(Some('a'), "x".to_string(), RegisterType::Line);
    let mut input = e.input_state();
    input.pending_register = Some('a');
    e.set_input_state(input);
    assert!(paste_before(&mut e, 1));
    assert_eq!(e.buffer().to_text(), "x\nabc\n");
    assert_eq!(place(&e), (0, 0));
}

#[test]
fn selections_count_clusters() {
    let mut e = editor("e\u{301}ab\n");
    select(&mut e, Mode::Visual, (0, 1), (0, 1));
    uppercase_visual_selection(&mut e);
    assert_eq!(e.buffer().to_text(), "e\u{301}Ab\n");
    let mut e = editor("e\u{301}ab\nxyz\n");
    select(&mut e, Mode::VisualBlock, (0, 1), (1, 1));
    replace_visual_selection(&mut e, '-');
    assert_eq!(e.buffer().to_text(), "e\u{301}-b\nx-z\n");
}

#[test]
fn yanks_start_at_the_cursors_cluster() {
    let mut buffer = Buffer::new_from_str("e\u{301}ab cd\n");
    buffer.set_position(0, GraphemeCol(1));
    assert_eq!(yank_to_end_of_line(&buffer), "ab cd");
    assert_eq!(yank_word(&mut buffer, 1), "ab ");
    buffer.set_position(0, GraphemeCol(4));
    assert_eq!(yank_word(&mut buffer, 1), "cd");
}

#[test]
fn reindenting_again_changes_nothing() {
    let mut e = editor("/* a\n      b */ {\nc('{');\n\n\t}\n");
    e.set_file_path("/tmp/a.rs".to_string());
    let options = e.indent_options();
    assert!(auto_indent_lines_with_tracking(&mut e, 0, 5, options) > 0);
    let once = e.buffer().to_text();
    assert_eq!(auto_indent_lines_with_tracking(&mut e, 0, 5, options), 0);
    assert_eq!(e.buffer().to_text(), once);
}

#[test]
fn copying_and_deleting_take_the_same() {
    for (mode, start, end) in [
        (Mode::Visual, (0, 1), (1, 0)),
        (Mode::VisualLine, (0, 1), (1, 0)),
        (Mode::VisualBlock, (0, 1), (2, 2)),
    ] {
        let mut e = editor("e\u{301}abc\nx\nyzw");
        select(&mut e, mode, start, end);
        yank_visual_selection(&mut e);
        let (text, kind) = e.registers.get_default_with_type();
        let copied = (text.to_string(), kind);
        let mut e = editor("e\u{301}abc\nx\nyzw");
        select(&mut e, mode, start, end);
        delete_visual_selection(&mut e);
        let (text, kind) = e.registers.get_default_with_type();
        assert_eq!((text.to_string(), kind), copied);
    }
}

#[test]
fn counted_word_motions_add_up() {
    let mut one = Buffer::new_from_str("a b.c\n\nd e\n");
    let mut other = Buffer::new_from_str("a b.c\n\nd e\n");
    Motions::word_forward(&mut one, 2);
    Motions::word_forward(&mut one, 3);
    Motions::word_forward(&mut other, 5);
    assert_eq!(one.cursor(), other.cursor());
    assert_eq!(other.cursor().line(), 2);
}

#[test]
fn a_pasted_block_leaves_the_cursor_on_its_last_cluster() {
    let mut e = editor("ab\n");
    e.yank_to_register_with_type("e\u{301}x\ny\u{301}".to_string(), RegisterType::Block);
    assert!(paste_before(&mut e, 1));
    assert_eq!(e.buffer().to_text(), "e\u{301}xab\ny\u{301}\n");
    assert_eq!(place(&e), (1, 0));
}

#[test]
fn a_deletion_is_a_copy_taken_out() {
    let text = "one two\nae\u{301}b cd\nlast\n";
    let cases = [
        (Mode::Visual, (0, 4), (1, 1), "one b cd\nlast\n"),
        (Mode::VisualLine, (1, 2), (2, 0), "one two\n"),
        (Mode::VisualBlock, (0, 1), (2, 1), "oe two\nab cd\nlst\n"),
    ];
    for (mode, from, to, rest) in cases {
        let mut copied = editor(text);
        select(&mut copied, mode, from, to);
        yank_visual_selection(&mut copied);
        assert_eq!(copied.buffer().to_text(), text);
        let mut cut = editor(text);
        select(&mut cut, mode, from, to);
        assert!(delete_visual_selection_with_token(&mut cut).is_some());
        assert_eq!(cut.buffer().to_text(), rest);
        assert_eq!(
            cut.registers.get_default_with_type(),
            copied.registers.get_default_with_type()
        );
    }
    let mut none = editor(text);
    assert!(delete_visual_selection_with_token(&mut none).is_none());
    assert_eq!(none.buffer().to_text(), text);
    assert_eq!(none.registers.get_default_with_type().0, "");
}

#[test]
fn reindenting_leaves_blank_lines_and_literals() {
    let text = "a {\n   \nlet s = `\n  kept\n`;\nb();\n    c();\n}\n";
    let mut e = editor(text);
    e.set_file_path("/tmp/a.js".to_string());
    let options = e.indent_options();
    assert_eq!(auto_indent_lines_with_tracking(&mut e, 0, 8, options), 2);
    assert_eq!(
        e.buffer().to_text(),
        "a {\n   \n    let s = `\n  kept\n`;\n    b();\n    c();\n}\n"
    );
    assert_eq!(auto_indent_lines_with_tracking(&mut e, 0, 8, options), 0);
}
