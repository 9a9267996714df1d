//! Clipboard synchronization through series of commands.
use ovim_core::buffer::Buffer;
use ovim_core::editor::clipboard::ClipboardBackend;
use ovim_core::editor::input::helpers::{clamp_cursor_to_line, move_down, yank_line};
use ovim_core::editor::input::paste::{paste_after, paste_before};
use ovim_core::editor::input::visual::delete_visual_selection;
use ovim_core::editor::register::{RegisterManager, RegisterType};
use ovim_core::editor::{Editor, Mode};
use ovim_core::unicode::{CharCol, GraphemeCol};
use std::collections::HashMap;
use std::sync::{Arc, Mutex};

#[derive(Debug, Default)]
struct ClipboardState {
    content: String,
    reads: usize,
    writes: usize,
}

#[derive(Debug, Clone, Default)]
struct FakeClipboard {
    state: Arc<Mutex<ClipboardState>>,
}

impl ClipboardBackend for FakeClipboard {
    fn read(&mut self) -> Option<String> {
        let mut state = self.state.lock().unwrap();
        state.reads += 1;
        Some(state.content.clone())
    }

    fn write(&mut self, text: &str) -> bool {
        let mut state = self.state.lock().unwrap();
        state.writes += 1;
        state.content = text.to_owned();
        true
    }
}

impl FakeClipboard {
    fn counts(&self) -> (usize, usize) {
        let state = self.state.lock().unwrap();
        (state.reads, state.writes)
    }

    fn external_write(&self, text: &str) {
        self.state.lock().unwrap().content = text.to_owned();
    }

    fn content(&self) -> String {
        self.state.lock().unwrap().content.clone()
    }
}

/// An editor with the macros and mappings that its keys run.
struct Session {
    editor: Editor<FakeClipboard>,
    macros: HashMap<char, String>,
    last_macro: Option<char>,
    mappings: HashMap<char, String>,
}

fn setup(text: &str, clipboard: &str) -> (Session, FakeClipboard) {
    let backend = FakeClipboard::default();
    backend.external_write(clipboard);
    let session = Session {
        editor: Editor::with_content(text, backend.clone()),
        macros: HashMap::new(),
        last_macro: None,
        mappings: HashMap::new(),
    };
    (session, backend)
}

impl Session {
    fn text(&self) -> String {
        self.editor.buffer().to_text()
    }

    /// Selects from the cursor in a visual mode and deletes the selection.
    fn delete_selection(&mut self, mode: Mode) {
        let cursor = *self.editor.buffer().cursor();
        let mut input = self.editor.input_state();
        input.mode = mode;
        input.visual_start = Some((cursor.line(), cursor.col().0));
        self.editor.set_input_state(input);
        delete_visual_selection(&mut self.editor);
        let mut input = self.editor.input_state();
        input.mode = Mode::Normal;
        input.visual_start = None;
        self.editor.set_input_state(input);
    }

    /// Runs a shell command: its text goes below the cursor's line, or the
    /// line through it and back.
    fn shell(&mut self, command: &str) {
        self.editor.begin_external_effects();
        let output = match command {
            "r !printf shell" => "shell\n",
            _ => "",
        };
        self.editor.end_external_effects();
        self.editor.buffer_mut().insert_text_at(1, CharCol(0), output);
    }

    /// Runs one command; false where a motion could not move.
    fn command(&mut self, count: usize, key: char, argument: Option<char>) -> bool {
        match key {
            'x' => {
                for _ in 0..count {
                    if self.editor.buffer().line_content_len(0) > 0 {
                        self.delete_selection(Mode::Visual);
                        clamp_cursor_to_line(&mut self.editor);
                    }
                }
                true
            }
            'd' => {
                self.delete_selection(Mode::VisualLine);
                true
            }
            'p' => {
                assert!(paste_after(&mut self.editor, count));
                true
            }
            'P' => {
                assert!(paste_before(&mut self.editor, count));
                true
            }
            'j' => {
                let line = self.editor.buffer().cursor().line();
                move_down(&mut self.editor);
                self.editor.buffer().cursor().line() > line
            }
            '@' => {
                let name = match argument {
                    Some('@') => self.last_macro.unwrap(),
                    Some(name) => name,
                    None => unreachable!(),
                };
                self.last_macro = Some(name);
                let body = self.macros[&name].clone();
                for _ in 0..count {
                    if !self.run(&body) {
                        break;
                    }
                }
                true
            }
            other => {
                let body = self.mappings[&other].clone();
                self.run(&body)
            }
        }
    }

    /// Runs commands, each as one unit of clipboard synchronization.
    fn run(&mut self, sequence: &str) -> bool {
        let keys: Vec<char> = sequence.chars().collect();
        let mut k = 0;
        while k < keys.len() {
            if keys[k] == '"' {
                let mut input = self.editor.input_state();
                input.pending_register = Some(keys[k + 1]);
                self.editor.set_input_state(input);
                k += 2;
                continue;
            }
            let mut count = 0;
            while keys[k].is_ascii_digit() {
                count = 10 * count + keys[k] as usize - '0' as usize;
                k += 1;
            }
            let key = keys[k];
            let argument = if key == '@' || key == 'd' {
                k += 1;
                Some(keys[k])
            } else {
                None
            };
            k += 1;
            self.editor.begin_execution_scope();
            let moved = self.command(count.max(1), key, argument);
            self.editor.end_execution_scope();
            if !moved {
                return false;
            }
        }
        true
    }

    fn keys(&mut self, sequence: &str) {
        self.run(sequence);
    }

    fn record(&mut self, register: char, sequence: &str) {
        self.macros.insert(register, sequence.to_owned());
    }

    fn yank_first_line(&mut self) {
        self.editor.begin_execution_scope();
        self.editor.buffer_mut().set_position(0, GraphemeCol(0));
        let text = yank_line(self.editor.buffer(), 1);
        self.editor.yank_to_register_with_type(text, RegisterType::Line);
        self.editor.end_execution_scope();
    }

    fn delete_first_line(&mut self) {
        self.editor.begin_execution_scope();
        let text = self
            .editor
            .buffer_mut()
            .delete_range(0, CharCol(0), 1, CharCol(0));
        self.editor.delete_to_register_with_type(text, RegisterType::Line);
        self.editor.end_execution_scope();
    }
}

#[test]
fn counted_macro_reads_its_own_deletes_without_external_reads() {
    let (mut session, backend) = setup("abc\n", "external");
    session.record('a', "xP");
    session.keys("50@a");
    assert_eq!(session.text(), "abc\n");
    assert_eq!(backend.counts(), (0, 1));
    assert_eq!(backend.content(), "a");
    assert_eq!(session.editor.registers.get(Some('-')), "a");
}

#[test]
fn paste_first_macro_reads_once_then_uses_local_writes() {
    let (mut session, backend) = setup("A\n", "B");
    session.record('a', "px");
    session.keys("20@a");
    assert_eq!(session.text(), "A\n");
    assert_eq!(backend.counts(), (1, 1));
    assert_eq!(backend.content(), "B");
}

#[test]
fn nested_macros_and_repeat_share_the_outer_scope() {
    let (mut session, backend) = setup("abc\n", "external");
    session.record('a', "xP");
    session.record('b', "3@a");
    session.keys("4@b");
    assert_eq!(backend.counts(), (0, 1));
    session.last_macro = Some('b');
    session.keys("@@");
    assert_eq!(backend.counts(), (0, 2));
    assert_eq!(session.text(), "abc\n");
}

#[test]
fn failed_motion_publishes_completed_macro_edits() {
    let (mut session, backend) = setup("abc\n", "external");
    session.record('a', "xj");
    session.keys("20@a");
    assert_eq!(session.text(), "bc\n");
    assert_eq!(backend.content(), "a");
    assert_eq!(backend.counts(), (0, 1));
    session.keys("x");
    assert_eq!(backend.content(), "b");
    assert_eq!(backend.counts(), (0, 2));
}

#[test]
fn macro_preserves_linewise_delete_and_paste() {
    let (mut session, backend) = setup("first\nsecond\n", "external");
    session.record('a', "ddP");
    session.keys("10@a");
    assert_eq!(session.text(), "first\nsecond\n");
    assert_eq!(
        session.editor.registers.get_default_with_type(),
        ("first\n", RegisterType::Line)
    );
    assert_eq!(backend.counts(), (0, 1));
}

#[test]
fn explicit_clipboard_register_joins_batch_without_duplicate_writes() {
    let (mut session, backend) = setup("abc\n", "external");
    session.editor.options.clipboard = false;
    session.record('a', "\"+x\"+P");
    session.keys("10@a");
    assert_eq!(session.text(), "abc\n");
    assert_eq!(backend.counts(), (0, 1));
    session.keys("\"+x");
    assert_eq!(backend.counts(), (0, 2));
}

#[test]
fn blackhole_and_named_register_macros_preserve_routing() {
    let (mut session, backend) = setup("abcdef\n", "external");
    session.record('a', "\"_x");
    session.keys("3@a");
    assert_eq!(session.text(), "def\n");
    assert_eq!(backend.counts(), (0, 0));
    session.editor.options.clipboard = false;
    session.record('b', "\"cx\"cP");
    session.keys("10@b");
    assert_eq!(session.text(), "def\n");
    assert_eq!(session.editor.registers.get(Some('c')), "d");
    assert_eq!(backend.content(), "external");
    assert_eq!(backend.counts(), (0, 0));
}

#[test]
fn independent_commands_observe_external_clipboard_changes() {
    let (mut session, backend) = setup("A\n", "B");
    session.keys("p");
    backend.external_write("C");
    session.keys("p");
    assert_eq!(session.text(), "ABC\n");
    assert_eq!(backend.counts(), (2, 0));
}

#[test]
fn returned_error_flushes_completed_effects_and_closes_scope() {
    let (mut session, backend) = setup("abc\n", "external");
    session.editor.begin_execution_scope();
    session.keys("x");
    assert_eq!(backend.counts(), (0, 0));
    let result: Result<(), &str> = Err("command failed");
    session.editor.end_execution_scope();
    assert_eq!(result, Err("command failed"));
    assert_eq!(backend.content(), "a");
    session.keys("x");
    assert_eq!(backend.counts(), (0, 2));
    assert_eq!(backend.content(), "b");
}

#[test]
fn external_boundary_flushes_before_execution_and_refreshes_afterward() {
    let (mut session, backend) = setup("abc\n", "external");
    session.editor.begin_execution_scope();
    session.keys("x");
    assert_eq!(backend.counts(), (0, 0));
    session.editor.begin_external_effects();
    assert_eq!(backend.content(), "a");
    assert_eq!(backend.counts(), (0, 1));
    backend.external_write("Z");
    session.editor.end_external_effects();
    session.keys("P");
    assert_eq!(session.text(), "Zbc\n");
    session.editor.end_execution_scope();
    assert_eq!(backend.counts(), (1, 1));
    assert_eq!(backend.content(), "Z");
}

#[test]
fn direct_ex_commands_publish_and_nested_ex_commands_join_scope() {
    let (mut session, backend) = setup("first\nsecond\nthird\n", "external");
    session.yank_first_line();
    assert_eq!(backend.content(), "first\n");
    assert_eq!(backend.counts(), (0, 1));
    session.editor.begin_execution_scope();
    session.delete_first_line();
    session.yank_first_line();
    assert_eq!(backend.counts(), (0, 1));
    assert_eq!(session.editor.registers.get(Some('0')), "second\n");
    assert_eq!(session.editor.registers.get(Some('1')), "first\n");
    session.editor.end_execution_scope();
    assert_eq!(backend.content(), "second\n");
    assert_eq!(backend.counts(), (0, 2));
    assert_eq!(session.text(), "second\nthird\n");
}

#[test]
fn synchronous_shell_entrypoints_flush_inside_the_outer_scope() {
    for command in ["r !printf shell", ".!cat"] {
        let (mut session, backend) = setup("abc\n", "external");
        session.editor.begin_execution_scope();
        session.keys("x");
        assert_eq!(backend.counts(), (0, 0));
        session.shell(command);
        assert_eq!(backend.counts(), (0, 1), "{command}");
        assert_eq!(backend.content(), "a");
        backend.external_write("fresh");
        assert_eq!(session.editor.registers.get_clipboard(), "fresh", "{command}");
        session.editor.end_execution_scope();
        assert_eq!(backend.counts(), (1, 1));
    }
}

#[test]
fn mapping_rhs_shares_one_execution_scope() {
    let (mut session, backend) = setup("abc\n", "external");
    session.mappings.insert('Q', "xPxP".to_owned());
    session.keys("Q");
    assert_eq!(session.text(), "abc\n");
    assert_eq!(backend.counts(), (0, 1));
}

#[test]
fn replacing_register_state_preserves_external_write_order() {
    let (mut session, backend) = setup("abc\n", "external");
    session.editor.begin_execution_scope();
    session.keys("x");
    let before = session
        .editor
        .replace_registers(RegisterManager::with_clipboard_backend(backend.clone()));
    assert_eq!(backend.content(), "a");
    session.keys("x");
    drop(before);
    assert_eq!(backend.content(), "b");
    assert_eq!(backend.counts(), (0, 2));
}

#[test]
fn a_read_only_buffer_keeps_its_text() {
    let (mut session, backend) = setup("abc\n", "external");
    session.editor.buffer_mut().set_read_only(true);
    session.keys("x");
    assert_eq!(session.text(), "abc\n");
    assert_eq!(backend.counts(), (0, 0));
    assert_eq!(Buffer::new_from_str("a").to_text(), "a");
}

#[test]
fn closures_run_as_one_unit_of_synchronization() {
    let (mut session, backend) = setup("abc\n", "external");
    let seen = session.editor.with_execution_scope(|editor| {
        editor.yank_to_register_with_type("one".to_owned(), RegisterType::Character);
        editor.yank_to_register_with_type("two".to_owned(), RegisterType::Character);
        assert_eq!(backend.counts(), (0, 0));
        let inside = editor.with_external_effects(|_| backend.content());
        editor.yank_to_register_with_type("three".to_owned(), RegisterType::Character);
        inside
    });
    assert_eq!(seen, "two");
    assert_eq!(backend.content(), "three");
    assert_eq!(backend.counts(), (0, 2));
}

#[test]
fn a_scope_survives_replaced_registers() {
    let (mut session, backend) = setup("abc\n", "external");
    let other = FakeClipboard::default();
    let fresh = RegisterManager::with_clipboard_backend(other.clone());
    session.editor.with_execution_scope(|editor| {
        editor.yank_to_register_with_type("one".to_owned(), RegisterType::Character);
        let _ = editor.replace_registers(fresh);
        assert_eq!(backend.content(), "one");
        editor.yank_to_register_with_type("two".to_owned(), RegisterType::Character);
        assert_eq!(other.content(), "two");
    });
    assert!(!session.editor.is_executing());
    assert_eq!(backend.counts(), (0, 1));
    assert_eq!(other.counts(), (0, 1));
}
