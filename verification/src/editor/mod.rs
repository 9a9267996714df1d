//! The editor: its buffers, registers, modes and commands.
use crate::buffer::{changes, Buf, Buffer, Change, Cursor, Edit};
use crate::editor::ai_chat::{chat_model, AiChat, Chat};
use crate::editor::clipboard::ClipboardBackend;
use crate::editor::lsp_state::{Lsp, LspState};
use crate::editor::register::{RegisterManager, Registers};
use crate::editor::tab_pages::{TabPageManager, Tabs};
use crate::editor::ui_panels::{toasts_model, Toast, ToastLevel, Ui, UiPanels};
use crate::indentation::IndentOptions;
use crate::lines::{line_content, line_count, offset_of};
use crate::unicode::{char_col_of, grapheme_to_char_col, CharCol, GraphemeCol};
use vstd::prelude::*;

pub mod ai_chat;
pub mod buffer_manager;
pub mod clipboard;
pub mod copying;
pub mod diagnosed;
pub mod diagnostics;
pub mod execution;
pub mod input;
pub mod keys;
pub mod lsp_state;
pub mod motions;
pub mod pseudocode;
pub mod reading_keys;
pub mod register;
pub mod register_names;
pub mod reindenting;
pub mod review;
pub mod routing;
pub mod selecting;
pub mod switching;
pub mod tab_manager;
pub mod tab_pages;
pub mod text_edits;
pub mod ui_panels;
pub mod undoing;

verus! {

/// What keys do.
#[derive(Debug, Clone, Copy, PartialEq, Eq, Structural)]
pub enum Mode {
    Normal,
    Insert,
    Visual,
    VisualLine,
    VisualBlock,
    HoverPreview,
}

/// An operation that can be repeated.
#[derive(Debug, Clone, Copy, PartialEq, Eq, Structural)]
pub enum RepeatAction {
    PasteAfter { count: usize },
    PasteBefore { count: usize },
    DeleteVisualLine { line_count: usize },
    DeleteVisualBlock { line_count: usize, width: usize },
    DeleteVisualChar { line_delta: usize, offset_col: usize },
    IndentLines { line_count: usize, options: IndentOptions },
    DedentLines { line_count: usize, options: IndentOptions },
}

/// A selection that was made in a visual mode.
#[derive(Debug, Clone, Copy, PartialEq, Eq)]
pub struct VisualSelection {
    pub mode: Mode,
    pub start: (usize, usize),
    pub end: (usize, usize),
}

/// What the keys typed so far have set up.
#[derive(Debug, Clone, Copy, PartialEq, Eq)]
pub struct InputState {
    pub mode: Mode,
    pub count: Option<usize>,
    pub pending_register: Option<char>,
    /// The first key of a command of two keys.
    pub pending_command: Option<char>,
    /// An operator that waits for its motion.
    pub pending_operator: Option<char>,
    /// Where the selection of a visual mode was begun.
    pub visual_start: Option<(usize, usize)>,
    pub visual_block_dollar: bool,
    pub last_visual: Option<VisualSelection>,
    pub macro_abort: bool,
    pub repeat: Option<RepeatAction>,
    pub repeat_register: Option<char>,
    pub search_forward: bool,
}

/// Settings of the editor.
#[derive(Debug, Clone, Copy, PartialEq, Eq, Structural)]
pub struct EditorOptions {
    pub indent: IndentOptions,
    pub ignorecase: bool,
    pub smartcase: bool,
    /// Whether the unnamed register goes through the clipboard.
    pub clipboard: bool,
}

/// A position of the cursor.
#[derive(Debug, Clone, Copy, PartialEq, Eq, Structural)]
pub struct CursorPos {
    pub line: usize,
    pub col: GraphemeCol,
}

/// A position in the text.
#[derive(Debug, Clone, Copy, PartialEq, Eq, Structural)]
pub struct ApplyPos {
    pub line: usize,
    pub col: CharCol,
}

/// A stretch of the text, its end not included.
#[derive(Debug, Clone, Copy, PartialEq, Eq, Structural)]
pub struct TextRange {
    pub start_line: usize,
    pub start_col: CharCol,
    pub end_line: usize,
    pub end_col: CharCol,
}

/// Names a recorded change.
#[derive(Debug, Clone, Copy, PartialEq, Eq, Structural)]
pub struct ChangeToken(pub usize);

/// A change that can be undone: its edits and where the cursor was.
#[derive(Debug)]
pub struct RecordedChange {
    /// The id of the buffer that changed
    pub buffer: usize,
    pub edits: Vec<Edit>,
    pub cursor_before: CursorPos,
    pub cursor_after: CursorPos,
}

/// A model of a recorded change.
pub ghost struct Recorded {
    pub buffer: usize,
    pub changes: Seq<Change>,
    pub before: CursorPos,
    pub after: CursorPos,
}

/// The editor.
pub struct Editor<B: ClipboardBackend> {
    pub buffers: Vec<Buffer>,
    pub current: usize,
    pub next_id: usize,
    pub input: InputState,
    pub undo: Vec<RecordedChange>,
    pub session: Vec<Edit>,
    pub search_pattern: String,
    pub options: EditorOptions,
    pub registers: RegisterManager<B>,
    pub tabs: TabPageManager,
    pub lsp: LspState,
    pub panels: UiPanels,
    /// Buffer-local marks: a name, a line and a column
    pub marks: Vec<(char, usize, usize)>,
    pub chat: Option<AiChat>,
}

/// A model of the editor's documents and input, without its registers.
pub ghost struct Ed {
    pub bufs: Seq<Buf>,
    pub current: int,
    pub next_id: int,
    pub input: InputState,
    pub undo: Seq<Recorded>,
    pub session: Seq<Change>,
    pub search: Seq<char>,
    pub options: EditorOptions,
    pub tabs: Tabs,
    pub lsp: Lsp,
    pub ui: Ui,
    pub marks: Seq<(char, usize, usize)>,
    pub chat: Option<Chat>,
}

impl Ed {
    /// There is a current buffer and a current tab.
    pub open spec fn wf(self) -> bool {
        0 <= self.current < self.bufs.len() && self.tabs.wf()
    }

    /// The current buffer.
    pub open spec fn cur(self) -> Buf {
        self.bufs[self.current]
    }

    /// The indentation policy of the current buffer; the editor's own where
    /// the buffer has none.
    pub open spec fn indent(self) -> IndentOptions {
        match self.cur().indent {
            Some(o) => o,
            None => self.options.indent,
        }
    }

    pub open spec fn with_cur(self, b: Buf) -> Ed {
        Ed { bufs: self.bufs.update(self.current, b), ..self }
    }
}

pub open spec fn buf_models(list: Seq<Buffer>) -> Seq<Buf> {
    list.map_values(|b: Buffer| b.model())
}

pub open spec fn recorded_models(list: Seq<RecordedChange>) -> Seq<Recorded> {
    list.map_values(
        |r: RecordedChange|
            Recorded {
                buffer: r.buffer,
                changes: changes(r.edits@),
                before: r.cursor_before,
                after: r.cursor_after,
            },
    )
}

pub open spec fn fresh_input() -> InputState {
    InputState {
        mode: Mode::Normal,
        count: None,
        pending_register: None,
        pending_command: None,
        pending_operator: None,
        visual_start: None,
        visual_block_dollar: false,
        last_visual: None,
        macro_abort: false,
        repeat: None,
        repeat_register: None,
        search_forward: true,
    }
}

/// The options of a new editor.
pub open spec fn fresh_options() -> EditorOptions {
    EditorOptions {
        indent: IndentOptions {
            tab_width: 4,
            shift_width: 4,
            soft_tab_stop: 4,
            expand_tab: true,
            copy_indent: false,
        },
        ignorecase: false,
        smartcase: false,
        clipboard: true,
    }
}

impl<B: ClipboardBackend> Editor<B> {
    pub closed spec fn model(&self) -> Ed {
        Ed {
            bufs: buf_models(self.buffers@),
            current: self.current as int,
            next_id: self.next_id as int,
            input: self.input,
            undo: recorded_models(self.undo@),
            session: changes(self.session@),
            search: self.search_pattern@,
            options: self.options,
            tabs: self.tabs.model(),
            lsp: self.lsp.model(),
            ui: self.panels.model(),
            marks: self.marks@,
            chat: chat_model(self.chat),
        }
    }

    /// There is a current buffer, and the registers are in order.
    pub open spec fn wf(&self) -> bool {
        self.model().wf() && self.registers.wf()
    }

    /// The current buffer.
    pub open spec fn cur(&self) -> Buf {
        self.model().cur()
    }

    /// An editor with one buffer that holds a text.
    pub fn with_content(text: &str, backend: B) -> (e: Editor<B>)
        ensures
            e.wf(),
            e.model().bufs.len() == 1,
            e.model().current == 0,
            e.cur().text == text@,
            e.cur().cursor.is_at(0, 0),
            e.cur().log == Seq::<Change>::empty(),
            e.cur().path is None,
            e.cur().name is None,
            e.cur().id == 0,
            e.cur().indent is None,
            e.cur().ending == crate::buffer::LineEnding::Lf,
            e.cur().mtime is None,
            e.cur().saved_changes == 0,
            !e.cur().read_only,
            !e.cur().modified,
            e.model().next_id == 1,
            e.model().input == fresh_input(),
            e.model().undo.len() == 0,
            e.model().session.len() == 0,
            e.model().options == fresh_options(),
            e.model().search == Seq::<char>::empty(),
            e.model().tabs.list.len() == 1,
            e.model().tabs.cur().buffer_id == Some(0usize),
            e.model().lsp == crate::editor::lsp_state::new_lsp(),
            e.model().chat is None,
            e.model().marks.len() == 0,
            e.model().ui == crate::editor::ui_panels::new_ui(),
            e.registers.model() == Registers::new(),
            e.registers.clip().model() == crate::editor::clipboard::ClipModel::new(),
            e.registers.clip().effects() == backend.log(),
    {
        let mut buffers: Vec<Buffer> = Vec::new();
        buffers.push(Buffer::new_from_str(text));
        Editor {
            buffers,
            current: 0,
            next_id: 1,
            input: InputState {
                mode: Mode::Normal,
                count: None,
                pending_register: None,
                pending_command: None,
                pending_operator: None,
                visual_start: None,
                visual_block_dollar: false,
                last_visual: None,
                macro_abort: false,
                repeat: None,
                repeat_register: None,
                search_forward: true,
            },
            undo: Vec::new(),
            session: Vec::new(),
            search_pattern: String::new(),
            tabs: TabPageManager::new(0),
            lsp: LspState::new(),
            panels: UiPanels::new(),
            marks: Vec::new(),
            chat: None,
            options: EditorOptions {
                indent: IndentOptions {
                    tab_width: 4,
                    shift_width: 4,
                    soft_tab_stop: 4,
                    expand_tab: true,
                    copy_indent: false,
                },
                ignorecase: false,
                smartcase: false,
                clipboard: true,
            },
            registers: RegisterManager::with_clipboard_backend(backend),
        }
    }

    /// The current buffer.
    pub fn buffer(&self) -> (b: &Buffer)
        requires
            self.model().wf(),
        ensures
            b.model() == self.cur(),
    {
        proof {
            assert(buf_models(self.buffers@)[self.current as int]
                == self.buffers@[self.current as int].model());
        }
        &self.buffers[self.current]
    }

    /// The current buffer.
    pub fn buffer_mut(&mut self) -> (b: &mut Buffer)
        requires
            old(self).model().wf(),
        ensures
            b.model() == old(self).cur(),
            final(self).model() == old(self).model().with_cur(final(b).model()),
            final(self).registers == old(self).registers,
            final(self).options == old(self).options,
    {
        proof {
            assert(buf_models(self.buffers@)[self.current as int]
                == self.buffers@[self.current as int].model());
            models_update(self.buffers@, self.current as int);
        }
        &mut self.buffers[self.current]
    }

    pub fn mode(&self) -> (m: Mode)
        ensures
            m == self.model().input.mode,
    {
        self.input.mode
    }

    pub fn input_state(&self) -> (s: InputState)
        ensures
            s == self.model().input,
    {
        self.input
    }

    pub fn set_input_state(&mut self, input: InputState)
        ensures
            final(self).model() == (Ed { input, ..old(self).model() }),
            final(self).registers == old(self).registers,
            final(self).options == old(self).options,
    {
        self.input = input;
    }

    pub fn set_mode(&mut self, mode: Mode)
        ensures
            final(self).model() == (Ed {
                input: InputState { mode, ..old(self).model().input },
                ..old(self).model()
            }),
            final(self).registers == old(self).registers,
            final(self).options == old(self).options,
    {
        self.input.mode = mode;
    }

    /// The count that was typed, or one.
    pub fn effective_count(&self) -> (n: usize)
        ensures
            n == match self.model().input.count {
                Some(n) => n,
                None => 1,
            },
    {
        match self.input.count {
            Some(n) => n,
            None => 1,
        }
    }

    pub fn clear_count(&mut self)
        ensures
            final(self).model() == (Ed {
                input: InputState { count: None, ..old(self).model().input },
                ..old(self).model()
            }),
            final(self).registers == old(self).registers,
            final(self).options == old(self).options,
    {
        self.input.count = None;
    }

    /// Stops a running macro: a motion could not move.
    pub fn signal_macro_abort(&mut self)
        ensures
            final(self).model() == (Ed {
                input: InputState { macro_abort: true, ..old(self).model().input },
                ..old(self).model()
            }),
            final(self).registers == old(self).registers,
            final(self).options == old(self).options,
    {
        self.input.macro_abort = true;
    }

    /// The indentation policy of the current buffer.
    pub fn indent_options(&self) -> (o: IndentOptions)
        requires
            self.model().wf(),
        ensures
            o == self.model().indent().norm(),
            o.wf(),
    {
        match self.buffer().indent_options() {
            Some(o) => o.normalized(),
            None => self.options.indent.normalized(),
        }
    }

    pub fn cursor_position(&self) -> (p: CursorPos)
        requires
            self.model().wf(),
        ensures
            p == pos_at(self.cur().cursor),
    {
        let c = self.buffer().cursor();
        CursorPos { line: c.line(), col: c.col() }
    }

    pub fn set_status_message(&mut self, text: &str)
        ensures
            final(self).model() == (Ed {
                ui: Ui { status: text@, ..old(self).model().ui },
                ..old(self).model()
            }),
            final(self).registers == old(self).registers,
            final(self).options == old(self).options,
    {
        self.panels.status_message = text.to_owned();
    }

    pub fn status_message(&self) -> (s: &str)
        ensures
            s@ == self.model().ui.status,
    {
        self.panels.status_message.as_str()
    }

    /// Asks for the screen to be drawn anew.
    pub fn mark_dirty(&mut self)
        ensures
            final(self).model() == (Ed {
                ui: Ui { dirty: true, ..old(self).model().ui },
                ..old(self).model()
            }),
            final(self).registers == old(self).registers,
            final(self).options == old(self).options,
    {
        self.panels.dirty = true;
    }

    /// Asks for the cursor to be put in the middle of the screen.
    pub fn center_cursor_in_viewport(&mut self)
        ensures
            final(self).model() == (Ed {
                ui: Ui { center: true, ..old(self).model().ui },
                ..old(self).model()
            }),
            final(self).registers == old(self).registers,
            final(self).options == old(self).options,
    {
        self.panels.center_cursor = true;
    }

    /// Shows a notice.
    pub fn push_toast(&mut self, level: ToastLevel, message: String)
        ensures
            final(self).model() == (Ed {
                ui: Ui {
                    toasts: old(self).model().ui.toasts.push((level, message@)),
                    ..old(self).model().ui
                },
                ..old(self).model()
            }),
            final(self).registers == old(self).registers,
            final(self).options == old(self).options,
    {
        let ghost before = toasts_model(self.panels.toasts@);
        self.panels.toasts.push(Toast { level, message });
        proof {
            assert(toasts_model(self.panels.toasts@) =~= before.push((level, message@)));
        }
    }

    /// Records a change so that it can be undone.
    pub fn push_recorded_undo(
        &mut self,
        edits: Vec<Edit>,
        cursor_before: CursorPos,
        cursor_after: CursorPos,
    ) -> (token: ChangeToken)
        requires
            old(self).model().wf(),
        ensures
            final(self).model() == (Ed {
                undo: old(self).model().undo.push(
                    Recorded {
                        buffer: old(self).cur().id,
                        changes: changes(edits@),
                        before: cursor_before,
                        after: cursor_after,
                    },
                ),
                ..old(self).model()
            }),
            token.0 == old(self).model().undo.len(),
            final(self).registers == old(self).registers,
            final(self).options == old(self).options,
    {
        let token: usize = self.undo.len();
        let buffer: usize = self.buffer().id();
        let ghost before = recorded_models(self.undo@);
        let r = RecordedChange { buffer, edits, cursor_before, cursor_after };
        let ghost model = Recorded {
            buffer,
            changes: changes(edits@),
            before: cursor_before,
            after: cursor_after,
        };
        self.undo.push(r);
        proof {
            assert(recorded_models(self.undo@) =~= before.push(model));
        }
        ChangeToken(token)
    }

    pub fn set_repeat_action(&mut self, action: RepeatAction)
        ensures
            final(self).model() == (Ed {
                input: InputState { repeat: Some(action), ..old(self).model().input },
                ..old(self).model()
            }),
            final(self).registers == old(self).registers,
            final(self).options == old(self).options,
    {
        self.input.repeat = Some(action);
    }

    /// Adds the edits made since a version to the running insert session;
    /// whether there were any.
    pub fn record_session(&mut self, version: usize) -> (changed: bool)
        requires
            old(self).model().wf(),
            version <= old(self).cur().log.len(),
        ensures
            final(self).model() == (Ed {
                session: old(self).model().session + old(self).cur().log.skip(version as int),
                ..old(self).model()
            }),
            changed == (version < old(self).cur().log.len()),
            final(self).registers == old(self).registers,
            final(self).options == old(self).options,
    {
        let changed = version < self.buffer().version();
        let mut edits = self.buffer().edits_from(version);
        let ghost made = changes(edits@);
        let ghost before = changes(self.session@);
        self.session.append(&mut edits);
        proof {
            assert(changes(self.session@) =~= before + made);
        }
        changed
    }

    /// The ends of the selection, in the order of the text; for a block, its
    /// upper left and lower right corners.
    pub fn visual_selection(&self) -> (res: Option<((usize, usize), (usize, usize))>)
        requires
            self.model().wf(),
        ensures
            res == selection_of(self.model()),
    {
        let start = match self.input.visual_start {
            Some(s) => s,
            None => return None,
        };
        let c = self.buffer().cursor();
        let here = (c.line(), c.col().0);
        match self.input.mode {
            Mode::VisualBlock => {
                let (top, bottom) = if start.0 <= here.0 {
                    (start.0, here.0)
                } else {
                    (here.0, start.0)
                };
                let (left, right) = if start.1 <= here.1 {
                    (start.1, here.1)
                } else {
                    (here.1, start.1)
                };
                Some(((top, left), (bottom, right)))
            },
            _ => if start.0 < here.0 || (start.0 == here.0 && start.1 <= here.1) {
                Some((start, here))
            } else {
                Some((here, start))
            },
        }
    }

    /// The selection in character columns, its end not included.
    pub fn visual_character_range(&self) -> (res: Option<TextRange>)
        requires
            self.model().wf(),
        ensures
            match (res, selection_of(self.model())) {
                (Some(r), Some((start, end))) => r == char_range(self.cur().text, start, end),
                (None, None) => true,
                _ => false,
            },
    {
        let (start, end) = match self.visual_selection() {
            Some(s) => s,
            None => return None,
        };
        let first = self.buffer().content(start.0);
        let last = self.buffer().content(end.0);
        Some(
            TextRange {
                start_line: start.0,
                start_col: grapheme_to_char_col(first.as_str(), GraphemeCol(start.1)),
                end_line: end.0,
                end_col: grapheme_to_char_col(
                    last.as_str(),
                    GraphemeCol(end.1.saturating_add(1)),
                ),
            },
        )
    }
}

pub open spec fn pos_at(c: Cursor) -> CursorPos {
    CursorPos { line: c.at_line() as usize, col: GraphemeCol(c.at_col() as usize) }
}

/// The ends of the selection, in the order of the text; for a block, its
/// upper left and lower right corners.
pub open spec fn selection_of(e: Ed) -> Option<((usize, usize), (usize, usize))> {
    match e.input.visual_start {
        Some(start) => {
            let here = (e.cur().line() as usize, e.cur().col() as usize);
            if e.input.mode is VisualBlock {
                let (top, bottom) = if start.0 <= here.0 {
                    (start.0, here.0)
                } else {
                    (here.0, start.0)
                };
                let (left, right) = if start.1 <= here.1 {
                    (start.1, here.1)
                } else {
                    (here.1, start.1)
                };
                Some(((top, left), (bottom, right)))
            } else if start.0 < here.0 || (start.0 == here.0 && start.1 <= here.1) {
                Some((start, here))
            } else {
                Some((here, start))
            }
        },
        None => None,
    }
}

/// A selection in character columns, its end not included.
pub open spec fn char_range(t: Seq<char>, start: (usize, usize), end: (usize, usize)) -> TextRange {
    TextRange {
        start_line: start.0,
        start_col: CharCol(char_col_of(line_content(t, start.0 as nat), start.1 as nat) as usize),
        end_line: end.0,
        end_col: CharCol(
            char_col_of(line_content(t, end.0 as nat), after_col(end.1)) as usize,
        ),
    }
}

pub open spec fn after_col(col: usize) -> nat {
    if col < usize::MAX {
        (col + 1) as nat
    } else {
        col as nat
    }
}

/// Where a range starts and ends in the text.
pub open spec fn range_offsets(t: Seq<char>, r: TextRange) -> (int, int) {
    (
        offset_of(t, r.start_line as nat, r.start_col.0 as nat),
        offset_of(t, r.end_line as nat, r.end_col.0 as nat),
    )
}

/// The text of a range.
pub open spec fn range_text(t: Seq<char>, r: TextRange) -> Seq<char> {
    let (from, to) = range_offsets(t, r);
    if from < to {
        t.subrange(from, to)
    } else {
        Seq::empty()
    }
}

/// The text of a range.
pub fn yank_range(buffer: &Buffer, range: TextRange) -> (s: String)
    ensures
        s@ == range_text(buffer.text(), range),
{
    let from: usize = buffer.offset(range.start_line, range.start_col);
    let to: usize = buffer.offset(range.end_line, range.end_col);
    if from < to {
        buffer.slice(from, to)
    } else {
        String::new()
    }
}

pub(crate) proof fn models_update(list: Seq<Buffer>, i: int)
    requires
        0 <= i < list.len(),
    ensures
        forall|b: Buffer|
            #![trigger list.update(i, b)]
            buf_models(list.update(i, b)) == buf_models(list).update(i, b.model()),
{
    assert forall|b: Buffer|
        #![trigger list.update(i, b)]
        buf_models(list.update(i, b)) == buf_models(list).update(i, b.model()) by {
        assert(buf_models(list.update(i, b)) =~= buf_models(list).update(i, b.model()));
    }
}

} // verus!
