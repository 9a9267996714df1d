use ovim_core::buffer::Buffer;
use ovim_core::editor::clipboard::NoClipboard;
use ovim_core::editor::keys::{KeyCode, KeyEvent, Modifiers};
use ovim_core::editor::pseudocode::{decide_reading_key, MarkdownDocument, Reading, ReadingKey};
use ovim_core::editor::{Editor, Mode};
use ovim_core::unicode::{CharCol, GraphemeCol};

fn reading(text: &str) -> Result<Reading, String> {
    Ok(Reading {
        text: text.to_string(),
        view_line: 1,
        highlights: vec![],
        markdown: Some(MarkdownDocument {
            text: "formatted".to_string(),
            view_lines: vec![0],
            highlights: vec![],
        }),
    })
}

fn opened() -> Editor<NoClipboard> {
    let mut editor = Editor::with_content("class A {\n}\n", NoClipboard::new());
    editor.set_file_path("/tmp/A.java".to_string());
    editor
        .set_pseudocode(true, (0, 0), reading("class A\nend\n"))
        .unwrap();
    editor
}

fn press(editor: &mut Editor<NoClipboard>, code: KeyCode) -> bool {
    editor.handle_pseudocode_key(
        KeyEvent::plain(code),
        (1, 0),
        reading("class A anew\nend\n"),
    )
}

#[test]
fn a_reading_cannot_be_changed_and_has_no_path() {
    let editor = opened();
    assert!(editor.is_pseudocode_buffer());
    assert!(editor.buffer().is_read_only());
    assert_eq!(editor.buffer().file_path(), None);
    assert_eq!(editor.buffer().display_name(), Some("Pseudocode: A.java"));
    assert_eq!(editor.buffer().cursor().line(), 1);
    assert!(!editor.lsp.needs_lsp_init);
    let id = editor.buffer().id();
    assert_eq!(
        editor.pseudocode_markdown(id).map(|d| d.text.as_str()),
        Some("formatted")
    );
    assert!(editor.pseudocode_markdown(99).is_none());
}

#[test]
fn only_java_and_markdown_are_read() {
    let mut editor = Editor::with_content("x", NoClipboard::new());
    assert_eq!(
        editor.set_pseudocode(true, (0, 0), reading("")).unwrap_err(),
        "Pseudocode supports Java and Markdown files"
    );
    editor.set_file_path("/tmp/a.md".to_string());
    assert_eq!(
        editor
            .set_pseudocode(true, (0, 0), Err("cannot parse".to_string()))
            .unwrap_err(),
        "cannot parse"
    );
    assert!(editor.set_pseudocode(true, (0, 0), reading("a\nb")).is_ok());
}

#[test]
fn enter_goes_to_the_source() {
    let mut editor = opened();
    assert!(press(&mut editor, KeyCode::Enter));
    assert_eq!(editor.buffer().file_path(), Some("/tmp/A.java"));
    assert_eq!(editor.buffer().cursor().line(), 1);
    assert_eq!(
        editor.status_message(),
        "Source · :set pseudo to return to pseudocode"
    );
}

#[test]
fn a_changed_source_is_read_again_first() {
    let mut editor = opened();
    editor
        .buffer_at_mut(0)
        .insert_text_at(0, CharCol(0), "// note\n");
    assert!(press(&mut editor, KeyCode::Enter));
    assert!(editor.is_pseudocode_buffer());
    assert_eq!(editor.buffer().to_text(), "class A anew\nend\n");
    assert_eq!(
        editor.status_message(),
        "Source changed; pseudocode refreshed. Press Enter to open source."
    );
    assert_eq!(editor.buffer_count(), 2);
}

#[test]
fn q_leaves_and_r_refreshes() {
    let mut editor = opened();
    assert!(press(&mut editor, KeyCode::Char('r')));
    assert_eq!(editor.buffer().to_text(), "class A anew\nend\n");
    assert!(press(&mut editor, KeyCode::Char('q')));
    assert_eq!(editor.buffer().file_path(), Some("/tmp/A.java"));
    assert_eq!(editor.status_message(), "Pseudocode off");
    assert!(!press(&mut editor, KeyCode::Char('q')));
}

#[test]
fn editing_keys_are_refused() {
    let mut editor = opened();
    let mut input = editor.input_state();
    input.count = Some(3);
    editor.set_input_state(input);
    for key in ['d', 'x', 'i', 'v', 'p', 'o'] {
        assert!(press(&mut editor, KeyCode::Char(key)), "{key}");
    }
    assert_eq!(editor.input_state().count, None);
    assert_eq!(editor.buffer().to_text(), "class A\nend\n");
    assert_eq!(
        editor.status_message(),
        "Pseudocode is a reading view; press Enter to edit source"
    );
    for key in ['j', 'G', '/', '5', 'n'] {
        assert!(!press(&mut editor, KeyCode::Char(key)), "{key}");
    }
    editor.set_mode(Mode::Visual);
    assert!(!press(&mut editor, KeyCode::Char('d')));
}

#[test]
fn modifiers_and_prefixes_decide() {
    let control = |c| KeyEvent {
        code: KeyCode::Char(c),
        modifiers: Modifiers {
            shift: false,
            control: true,
            alt: false,
            logo: false,
        },
    };
    assert_eq!(decide_reading_key(None, control('d')), ReadingKey::Pass);
    assert_eq!(decide_reading_key(None, control('r')), ReadingKey::Refuse);
    let plain = |c| KeyEvent::plain(KeyCode::Char(c));
    assert_eq!(decide_reading_key(Some('g'), plain('g')), ReadingKey::Pass);
    assert_eq!(decide_reading_key(Some('g'), plain('f')), ReadingKey::Refuse);
    assert_eq!(
        decide_reading_key(None, KeyEvent::plain(KeyCode::PageDown)),
        ReadingKey::Pass
    );
    assert_eq!(
        decide_reading_key(None, KeyEvent::plain(KeyCode::Backspace)),
        ReadingKey::Refuse
    );
}

#[test]
fn a_reading_without_its_source_becomes_an_empty_buffer() {
    let mut editor = opened();
    editor.switch_to_buffer(0);
    editor.delete_current_buffer();
    assert!(editor.is_pseudocode_buffer());
    assert_eq!(
        editor.leave_pseudocode(true, (0, 0), reading("")).unwrap_err(),
        "Source buffer closed; use :set nopseudo to close this view"
    );
    assert!(editor.set_pseudocode(false, (0, 0), reading("")).is_ok());
    assert!(!editor.is_pseudocode_buffer());
    assert_eq!(editor.buffer().to_text(), "");
    assert!(!editor.buffer().is_read_only());
    assert_eq!(
        editor.status_message(),
        "Pseudocode off; source buffer was closed"
    );
    assert_eq!(
        Buffer::new_from_str("x").cursor().col(),
        GraphemeCol(0)
    );
}

#[test]
fn reading_again_adds_no_buffer_and_keeps_the_source() {
    let mut editor = opened();
    assert_eq!(editor.buffer_count(), 2);
    editor
        .set_pseudocode(true, (0, 0), reading("class A again\n"))
        .unwrap();
    assert_eq!(editor.buffer_count(), 2);
    assert_eq!(editor.buffer().to_text(), "class A again\n");
    let source = editor.buffer_at(0).unwrap();
    assert_eq!(source.to_text(), "class A {\n}\n");
    assert_eq!(source.file_path(), Some("/tmp/A.java"));
}

#[test]
fn the_place_of_the_cursor_is_counted_in_bytes() {
    let mut editor = Editor::with_content("x\nae\u{301}b\n", NoClipboard::new());
    for (col, byte) in [(0, 0), (1, 1), (2, 4), (3, 5), (9, 5)] {
        editor.buffer_mut().set_position(1, GraphemeCol(col));
        assert_eq!(editor.reading_place(), (1, byte));
    }
    editor.buffer_mut().set_position(7, GraphemeCol(1));
    assert_eq!(editor.reading_place(), (7, 0));
}

#[test]
fn asking_again_makes_the_same_reading_anew() {
    let mut editor = opened();
    let source = editor.buffer_at(0).unwrap();
    assert_eq!(source.to_text(), "class A {\n}\n");
    assert_eq!(source.file_path(), Some("/tmp/A.java"));
    let version = source.version();
    let count = editor.buffer_count();
    assert!(editor
        .set_pseudocode(true, (0, 0), reading("class A anew\n"))
        .is_ok());
    assert_eq!(editor.buffer_count(), count);
    assert_eq!(editor.buffer().to_text(), "class A anew\n");
    assert!(editor.buffer().is_read_only());
    assert!(editor.is_pseudocode_buffer());
    assert_eq!(editor.mode(), Mode::Normal);
    assert_eq!(editor.buffer_at(0).unwrap().version(), version);
}
