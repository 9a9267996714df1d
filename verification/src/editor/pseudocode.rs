//! Source-mapped reading buffers.
//!
//! A reading buffer shows a source in another form and cannot be changed. The
//! source stays a buffer of its own, with its undo history, its diagnostics
//! and its path. How the source is read, and which place of it a place of the
//! reading shows, is computed outside and handed in.
use crate::buffer::{Buf, Buffer};
use crate::diff_review::render::cluster_bytes;
use crate::diff_review::{clusters_to_byte, grapheme_index_for_byte};
use crate::editor::buffer_manager::{added, files_move};
use crate::editor::clipboard::ClipboardBackend;
use crate::editor::keys::{KeyCode, KeyEvent};
use crate::editor::lsp_state::Lsp;
use crate::editor::register::RegisterManager;
use crate::editor::review::{jumped, with_status};
use crate::editor::tab_manager::is_diff_buffer;
use crate::editor::ui_panels::Ui;
use crate::editor::{Ed, Editor, InputState, Mode};
use crate::fmt::{byte_count, byte_len};
use crate::highlight_index::Highlight;
use crate::lines::{line_content, line_count};
use crate::syntax::{detect_from_path, extension_of, language_of, last_component, path_name, Language};
use crate::unicode::{graphemes, graphemes_of, views};
use vstd::prelude::*;

verus! {

/// A formatted document that is shown in place of the reading buffer. Each of
/// its lines points into that buffer.
#[derive(Debug)]
pub struct MarkdownDocument {
    pub text: String,
    pub view_lines: Vec<usize>,
    pub highlights: Vec<Vec<Highlight>>,
}

/// A source as it is read.
#[derive(Debug)]
pub struct Reading {
    pub text: String,
    /// The line that shows the line of the source to begin at.
    pub view_line: usize,
    pub highlights: Vec<Vec<Highlight>>,
    pub markdown: Option<MarkdownDocument>,
}

/// A reading buffer and its source.
#[derive(Debug)]
pub struct PseudocodeView {
    pub buffer_id: usize,
    pub source_id: usize,
    /// The versions of both when the reading was made
    pub source_version: usize,
    pub view_version: usize,
    pub highlights: Vec<Vec<Highlight>>,
    pub markdown: Option<MarkdownDocument>,
}

/// The view, from the `k`th on, that a buffer is.
pub open spec fn view_at(views: Seq<PseudocodeView>, id: usize, k: int) -> Option<int>
    decreases views.len() - k,
{
    if k < 0 || k >= views.len() {
        None
    } else if views[k].buffer_id == id {
        Some(k)
    } else {
        view_at(views, id, k + 1)
    }
}

/// The view, from the `k`th on, of a source.
pub open spec fn view_of(views: Seq<PseudocodeView>, source: usize, k: int) -> Option<int>
    decreases views.len() - k,
{
    if k < 0 || k >= views.len() {
        None
    } else if views[k].source_id == source {
        Some(k)
    } else {
        view_of(views, source, k + 1)
    }
}

/// A view in place of the one of the same buffer, or behind the others.
pub open spec fn with_view(views: Seq<PseudocodeView>, v: PseudocodeView) -> Seq<PseudocodeView> {
    match view_at(views, v.buffer_id, 0) {
        Some(k) => views.update(k, v),
        None => views.push(v),
    }
}

/// The source of the current buffer; the buffer itself where it is no reading.
pub open spec fn source_of(e: Ed) -> usize {
    match view_at(e.ui.views, e.cur().id, 0) {
        Some(k) => e.ui.views[k].source_id,
        None => e.cur().id,
    }
}

pub open spec fn readable(path: Option<Seq<char>>) -> bool {
    let language = match path {
        Some(path) => language_of(extension_of(path)),
        None => language_of(extension_of(Seq::empty())),
    };
    language == Some(Language::Java) || language == Some(Language::Markdown)
}

pub open spec fn reading_title(path: Option<Seq<char>>) -> Seq<char> {
    "Pseudocode: "@ + match path {
        Some(path) => match last_component(path, path.len() as int) {
            Some(name) => name,
            None => Seq::empty(),
        },
        None => Seq::empty(),
    }
}

/// The index of the buffer that shows the reading of a source already.
pub open spec fn existing_reading(e: Ed, source: usize) -> Option<int> {
    match view_of(e.ui.views, source, 0) {
        Some(k) => e.index_by_id(e.ui.views[k].buffer_id, 0),
        None => None,
    }
}

/// A reading is shown, in the buffer that shows the source's reading already
/// or in a new one.
pub open spec fn reading_entered(e: Ed, g: Ed, text: Seq<char>, source: usize, title: Seq<char>) -> bool {
    match existing_reading(e, source) {
        Some(k) => g == (Ed {
            bufs: e.bufs.update(k, e.bufs[k].replaced(text)),
            ..e
        }).switched_to(k),
        None => exists|b: Buf| #[trigger]
            is_diff_buffer(b, title, text) && g == added(e, b, true),
    }
}

/// A reading was opened or made anew.
pub open spec fn reading_opened(e: Ed, f: Ed, r: Reading) -> bool {
    exists|g: Ed, h: Ed, v: PseudocodeView| #[trigger] reading_opened_as(e, f, r, g, h, v)
}

pub open spec fn reading_opened_as(e: Ed, f: Ed, r: Reading, g: Ed, h: Ed, v: PseudocodeView) -> bool {
    let source = source_of(e);
    let b = e.bufs[e.index_by_id(source, 0)->0];
    &&& reading_entered(e, g, r.text@, source, reading_title(b.path))
    &&& v.buffer_id == g.cur().id
    &&& v.source_id == source
    &&& v.source_version == b.log.len()
    &&& v.view_version == g.cur().log.len()
    &&& v.markdown == r.markdown
    &&& v.highlights == r.highlights
    &&& jumped(
        Ed { ui: Ui { views: with_view(g.ui.views, v), ..g.ui }, ..g },
        h,
        r.view_line,
        0,
    )
    &&& f == settled_in(
        Ed { lsp: Lsp { needs_init: false, ..h.lsp }, ..h },
        "Pseudocode · Enter: source · r: refresh · :set nopseudo: off"@,
    )
}

/// Another buffer is settled in: normal mode, the tab shows it, the screen is
/// drawn anew, with a message.
pub open spec fn settled_in(e: Ed, message: Seq<char>) -> Ed {
    let s = Ed {
        input: InputState { mode: Mode::Normal, ..e.input },
        ui: Ui { center: true, status: message, dirty: true, ..e.ui },
        ..e
    };
    s.tab_synced()
}

/// The file registers after a reading was shown.
pub open spec fn reading_files<B: ClipboardBackend>(
    before: RegisterManager<B>,
    after: RegisterManager<B>,
    e: Ed,
) -> bool {
    match existing_reading(e, source_of(e)) {
        Some(k) if k != e.current => files_move(before, after, e.cur().path, e.bufs[k].path),
        _ => after == before,
    }
}

/// Why no reading of the current buffer can be shown.
pub open spec fn reading_refused(e: Ed) -> Option<Seq<char>> {
    match e.index_by_id(source_of(e), 0) {
        None => Some("The pseudocode source buffer has been closed"@),
        Some(i) => if readable(e.bufs[i].path) {
            None
        } else {
            Some("Pseudocode supports Java and Markdown files"@)
        },
    }
}

/// The editor after a reading was asked for, and what is answered.
pub open spec fn reading_asked(
    e: Ed,
    f: Ed,
    reading: Result<Reading, String>,
    res: Result<(), String>,
) -> bool {
    match (reading_refused(e), reading) {
        (Some(message), _) => res matches Err(m) && m@ == message && f == e,
        (None, Err(error)) => res matches Err(m) && m@ == error@ && f == e,
        (None, Ok(r)) => res is Ok && reading_opened(e, f, r),
    }
}

pub open spec fn asked_files<B: ClipboardBackend>(
    before: RegisterManager<B>,
    after: RegisterManager<B>,
    e: Ed,
    reading: Result<Reading, String>,
) -> bool {
    if reading_refused(e) is None && reading is Ok {
        reading_files(before, after, e)
    } else {
        after == before
    }
}

/// A reading whose source is gone became an empty buffer.
pub open spec fn orphan_cleared(e: Ed, k: int) -> Ed {
    let b = e.cur().replaced(Seq::empty());
    let f = e.with_cur(Buf { read_only: false, name: Some("[No Name]"@), ..b });
    Ed {
        input: InputState { mode: Mode::Normal, ..e.input },
        ui: Ui {
            views: e.ui.views.remove(k),
            status: "Pseudocode off; source buffer was closed"@,
            dirty: true,
            ..e.ui
        },
        ..f
    }
}

/// The reading does not show its source as it is now.
pub open spec fn reading_stale(e: Ed, v: PseudocodeView, source: int) -> bool {
    e.bufs[source].log.len() != v.source_version || e.cur().log.len() != v.view_version
}

/// The editor after a reading was left, and what is answered. `position` is
/// the line and the byte of the source that the cursor's place shows.
pub open spec fn reading_left(
    e: Ed,
    f: Ed,
    jump: bool,
    position: (usize, usize),
    reading: Result<Reading, String>,
    res: Result<(), String>,
) -> bool {
    match view_at(e.ui.views, e.cur().id, 0) {
        None => res is Ok && f == e,
        Some(k) => {
            let v = e.ui.views[k];
            match e.index_by_id(v.source_id, 0) {
                None => if jump {
                    res matches Err(m) && m@
                        == "Source buffer closed; use :set nopseudo to close this view"@ && f == e
                } else {
                    res is Ok && f == orphan_cleared(e, k)
                },
                Some(i) => if !jump {
                    res is Ok && f == settled_in(e.switched_to(i), "Pseudocode off"@)
                } else if reading_stale(e, v, i) {
                    exists|g: Ed| #[trigger]
                        reading_asked(e, g, reading, res) && f == if res is Ok {
                            with_status(
                                g,
                                "Source changed; pseudocode refreshed. Press Enter to open source."@,
                            )
                        } else {
                            g
                        }
                } else {
                    let g = e.switched_to(i);
                    &&& res is Ok
                    &&& exists|h: Ed| #[trigger]
                        jumped(g, h, position.0, source_column(e.bufs[i].text, position)) && f
                            == settled_in(h, "Source · :set pseudo to return to pseudocode"@)
                },
            }
        },
    }
}

/// The cluster column of a byte of a line; zero behind the text.
pub open spec fn source_column(t: Seq<char>, position: (usize, usize)) -> usize {
    if position.0 < line_count(t) {
        clusters_to_byte(
            graphemes_of(line_content(t, position.0 as nat)),
            0,
            position.1 as int,
        ) as usize
    } else {
        clusters_to_byte(graphemes_of(Seq::empty()), 0, position.1 as int) as usize
    }
}

/// Where a cluster of a line starts, in bytes; where the line ends for one
/// behind it.
pub open spec fn cluster_byte(line: Seq<char>, col: usize) -> usize {
    if col < graphemes_of(line).len() {
        cluster_bytes(graphemes_of(line), col as int) as usize
    } else {
        byte_count(line) as usize
    }
}

/// The place of the cursor, as a line and a byte of it.
pub open spec fn cursor_place(b: Buf) -> (usize, usize) {
    let at = b.cursor.at_line();
    let line = if at < line_count(b.text) {
        line_content(b.text, at as nat)
    } else {
        Seq::empty()
    };
    (at as usize, cluster_byte(line, b.cursor.at_col() as usize))
}

/// The file registers after a reading was left.
pub open spec fn left_files<B: ClipboardBackend>(
    before: RegisterManager<B>,
    after: RegisterManager<B>,
    e: Ed,
    jump: bool,
    reading: Result<Reading, String>,
) -> bool {
    match view_at(e.ui.views, e.cur().id, 0) {
        None => after == before,
        Some(k) => match e.index_by_id(e.ui.views[k].source_id, 0) {
            None => after == before,
            Some(i) => if jump && reading_stale(e, e.ui.views[k], i) {
                asked_files(before, after, e, reading)
            } else if i != e.current {
                files_move(before, after, e.cur().path, e.bufs[i].path)
            } else {
                after == before
            },
        },
    }
}

/// What a key does in a reading.
#[derive(Debug, Clone, Copy, PartialEq, Eq, Structural)]
pub enum ReadingKey {
    /// It is handled as in any buffer.
    Pass,
    /// It is refused.
    Refuse,
    /// It opens the source at the cursor.
    OpenSource,
    /// It makes the reading anew.
    Refresh,
    /// It leaves the reading.
    Close,
}

/// A motion or a search.
pub open spec fn reading_motion(c: char) -> bool {
    c == 'h' || c == 'j' || c == 'k' || c == 'l' || c == 'w' || c == 'W' || c == 'b' || c == 'B'
        || c == 'e' || c == 'E' || c == 'g' || c == 'G' || c == 'z' || c == 't' || c == 'f' || c
        == 'F' || c == 'T' || c == ';' || c == ',' || c == 'n' || c == 'N' || c == '*' || c == '#'
        || c == '/' || c == '?' || c == ':' || ('0' <= c <= '9') || c == '$' || c == '^' || c
        == '%' || c == '{' || c == '}' || c == 'H' || c == 'M' || c == 'L'
}

/// A scrolling command with the control key.
pub open spec fn scrolls(c: char) -> bool {
    c == 'd' || c == 'u' || c == 'f' || c == 'b' || c == 'e' || c == 'y'
}

/// A second key behind `g` that moves.
pub open spec fn moves_after_g(c: char) -> bool {
    c == 'g' || c == 'e' || c == 'E' || c == 'j' || c == 'k' || c == '0' || c == '^' || c == '$'
}

/// What a key does in a reading in normal mode. Operators, macros, other modes
/// and jumps of a server use places of the source and are refused.
pub open spec fn reading_key(pending: Option<char>, key: KeyEvent) -> ReadingKey {
    let m = key.modifiers;
    if m.control || m.logo || m.alt {
        if m.control && !m.logo && !m.alt && !m.shift && (key.code matches KeyCode::Char(c)
            && scrolls(c)) {
            ReadingKey::Pass
        } else {
            ReadingKey::Refuse
        }
    } else if pending == Some('g') && !(key.code is Esc || (key.code matches KeyCode::Char(c)
        && moves_after_g(c))) {
        ReadingKey::Refuse
    } else {
        match key.code {
            KeyCode::Enter => ReadingKey::OpenSource,
            KeyCode::Char(c) => if c == 'q' {
                ReadingKey::Close
            } else if c == 'r' {
                ReadingKey::Refresh
            } else if reading_motion(c) {
                ReadingKey::Pass
            } else {
                ReadingKey::Refuse
            },
            KeyCode::Up
            | KeyCode::Down
            | KeyCode::Left
            | KeyCode::Right
            | KeyCode::Home
            | KeyCode::End
            | KeyCode::PageUp
            | KeyCode::PageDown
            | KeyCode::Esc => ReadingKey::Pass,
            _ => ReadingKey::Refuse,
        }
    }
}

fn is_motion(c: char) -> (res: bool)
    ensures
        res == reading_motion(c),
{
    match c {
        'h' | 'j' | 'k' | 'l' | 'w' | 'W' | 'b' | 'B' | 'e' | 'E' | 'g' | 'G' => true,
        'z' | 't' | 'f' | 'F' | 'T' | ';' | ',' | 'n' | 'N' | '*' | '#' | '/' | '?' | ':' => true,
        '0'..='9' => true,
        '$' | '^' | '%' | '{' | '}' | 'H' | 'M' | 'L' => true,
        _ => false,
    }
}

/// What a key does in a reading in normal mode, behind another key or none.
pub fn decide_reading_key(pending: Option<char>, key: KeyEvent) -> (res: ReadingKey)
    ensures
        res == reading_key(pending, key),
{
    let m = key.modifiers;
    if m.control || m.logo || m.alt {
        let scroll = match key.code {
            KeyCode::Char('d') | KeyCode::Char('u') | KeyCode::Char('f') => true,
            KeyCode::Char('b') | KeyCode::Char('e') | KeyCode::Char('y') => true,
            _ => false,
        };
        if m.control && !m.logo && !m.alt && !m.shift && scroll {
            return ReadingKey::Pass;
        }
        return ReadingKey::Refuse;
    }
    let behind_g = match pending {
        Some(c) => c == 'g',
        None => false,
    };
    if behind_g {
        let moves = match key.code {
            KeyCode::Esc => true,
            KeyCode::Char('g') | KeyCode::Char('e') | KeyCode::Char('E') => true,
            KeyCode::Char('j') | KeyCode::Char('k') | KeyCode::Char('0') => true,
            KeyCode::Char('^') | KeyCode::Char('$') => true,
            _ => false,
        };
        if !moves {
            return ReadingKey::Refuse;
        }
    }
    match key.code {
        KeyCode::Enter => ReadingKey::OpenSource,
        KeyCode::Char('q') => ReadingKey::Close,
        KeyCode::Char('r') => ReadingKey::Refresh,
        KeyCode::Char(c) => if is_motion(c) {
            ReadingKey::Pass
        } else {
            ReadingKey::Refuse
        },
        KeyCode::Up | KeyCode::Down | KeyCode::Left | KeyCode::Right => ReadingKey::Pass,
        KeyCode::Home | KeyCode::End | KeyCode::PageUp | KeyCode::PageDown => ReadingKey::Pass,
        KeyCode::Esc => ReadingKey::Pass,
        _ => ReadingKey::Refuse,
    }
}

/// A command was refused: nothing of it is left.
pub open spec fn command_refused(e: Ed) -> Ed {
    Ed {
        input: InputState {
            pending_command: None,
            pending_operator: None,
            pending_register: None,
            count: None,
            ..e.input
        },
        ui: Ui {
            status: "Pseudocode is a reading view; press Enter to edit source"@,
            ..e.ui
        },
        ..e
    }
}

/// The editor after an error is shown where there is one.
pub open spec fn told(g: Ed, res: Result<(), String>) -> Ed {
    match res {
        Err(m) => with_status(g, m@),
        Ok(_) => g,
    }
}

/// The editor after a key in a reading, and whether the key was taken.
pub open spec fn reading_key_done(
    e: Ed,
    f: Ed,
    key: KeyEvent,
    position: (usize, usize),
    reading: Result<Reading, String>,
    taken: bool,
) -> bool {
    if view_at(e.ui.views, e.cur().id, 0) is None || !(e.input.mode is Normal) {
        !taken && f == e
    } else {
        match reading_key(e.input.pending_command, key) {
            ReadingKey::Pass => !taken && f == e,
            ReadingKey::Refuse => taken && f == command_refused(e),
            ReadingKey::OpenSource => taken && exists|g: Ed, res: Result<(), String>| #[trigger]
                reading_left(e, g, true, position, reading, res) && f == told(g, res),
            ReadingKey::Refresh => taken && exists|g: Ed, res: Result<(), String>| #[trigger]
                reading_asked(e, g, reading, res) && f == told(g, res),
            ReadingKey::Close => taken && exists|g: Ed, res: Result<(), String>| #[trigger]
                reading_left(e, g, false, position, reading, res) && f == told(g, res),
        }
    }
}

/// The file registers after a key in a reading.
pub open spec fn key_files<B: ClipboardBackend>(
    before: RegisterManager<B>,
    after: RegisterManager<B>,
    e: Ed,
    key: KeyEvent,
    reading: Result<Reading, String>,
) -> bool {
    if view_at(e.ui.views, e.cur().id, 0) is None || !(e.input.mode is Normal) {
        after == before
    } else {
        match reading_key(e.input.pending_command, key) {
            ReadingKey::Pass | ReadingKey::Refuse => after == before,
            ReadingKey::OpenSource => left_files(before, after, e, true, reading),
            ReadingKey::Refresh => asked_files(before, after, e, reading),
            ReadingKey::Close => left_files(before, after, e, false, reading),
        }
    }
}

impl<B: ClipboardBackend> Editor<B> {
    fn find_view(&self, id: usize) -> (res: Option<usize>)
        ensures
            match res {
                Some(k) => view_at(self.model().ui.views, id, 0) == Some(k as int) && k
                    < self.panels.pseudocode.len(),
                None => view_at(self.model().ui.views, id, 0) is None,
            },
    {
        let mut k: usize = 0;
        while k < self.panels.pseudocode.len()
            invariant
                k <= self.panels.pseudocode.len(),
                view_at(self.panels.pseudocode@, id, k as int) == view_at(
                    self.panels.pseudocode@,
                    id,
                    0,
                ),
            decreases self.panels.pseudocode.len() - k,
        {
            if self.panels.pseudocode[k].buffer_id == id {
                return Some(k);
            }
            k += 1;
        }
        None
    }

    fn find_reading(&self, source: usize) -> (res: Option<usize>)
        ensures
            match res {
                Some(k) => existing_reading(self.model(), source) == Some(k as int) && k
                    < self.model().bufs.len(),
                None => existing_reading(self.model(), source) is None,
            },
    {
        let mut k: usize = 0;
        while k < self.panels.pseudocode.len()
            invariant
                k <= self.panels.pseudocode.len(),
                view_of(self.panels.pseudocode@, source, k as int) == view_of(
                    self.panels.pseudocode@,
                    source,
                    0,
                ),
            decreases self.panels.pseudocode.len() - k,
        {
            if self.panels.pseudocode[k].source_id == source {
                return self.find_buffer_index_by_id(self.panels.pseudocode[k].buffer_id);
            }
            k += 1;
        }
        None
    }

    /// The formatted document of a reading buffer.
    pub fn pseudocode_markdown(&self, buffer_id: usize) -> (res: Option<&MarkdownDocument>)
        ensures
            ({
                let views = self.model().ui.views;
                match (res, view_at(views, buffer_id, 0)) {
                    (Some(d), Some(k)) => views[k].markdown == Some(*d),
                    (None, Some(k)) => views[k].markdown is None,
                    (None, None) => true,
                    _ => false,
                }
            }),
    {
        match self.find_view(buffer_id) {
            Some(k) => match &self.panels.pseudocode[k].markdown {
                Some(d) => Some(d),
                None => None,
            },
            None => None,
        }
    }

    /// Whether the current buffer is a reading.
    pub fn is_pseudocode_buffer(&self) -> (res: bool)
        requires
            self.model().wf(),
        ensures
            res == (view_at(self.model().ui.views, self.cur().id, 0) is Some),
    {
        self.find_view(self.buffer().id()).is_some()
    }

    /// The line of the cursor, and the bytes of the line before its cluster.
    pub fn reading_place(&self) -> (place: (usize, usize))
        requires
            self.model().wf(),
        ensures
            place == cursor_place(self.cur()),
    {
        let line: usize = self.buffer().cursor().line();
        let col: usize = self.buffer().cursor().col().0;
        let text = match self.buffer().line_text(line) {
            Some(text) => text,
            None => "".to_owned(),
        };
        proof {
            reveal_strlit("");
            assert(""@ =~= Seq::<char>::empty());
        }
        (line, cluster_start(text.as_str(), col))
    }

    fn insert_view(&mut self, v: PseudocodeView)
        requires
            old(self).wf(),
        ensures
            final(self).wf(),
            final(self).registers == old(self).registers,
            final(self).model() == (Ed {
                ui: Ui {
                    views: with_view(old(self).model().ui.views, v),
                    ..old(self).model().ui
                },
                ..old(self).model()
            }),
    {
        match self.find_view(v.buffer_id) {
            Some(k) => {
                self.panels.pseudocode.set(k, v);
            },
            None => {
                self.panels.pseudocode.push(v);
            },
        }
    }

    fn settle_in(&mut self, message: &str)
        requires
            old(self).wf(),
        ensures
            final(self).wf(),
            final(self).registers == old(self).registers,
            final(self).model() == settled_in(old(self).model(), message@),
    {
        self.set_mode(Mode::Normal);
        self.sync_current_tab_buffer();
        self.center_cursor_in_viewport();
        self.set_status_message(message);
        self.mark_dirty();
    }

    fn source_index(&self) -> (res: Result<(usize, usize), String>)
        requires
            self.model().wf(),
        ensures
            match res {
                Ok((source, index)) => source == source_of(self.model())
                    && self.model().index_by_id(source, 0) == Some(index as int) && index
                    < self.model().bufs.len() && readable(self.model().bufs[index as int].path)
                    && reading_refused(self.model()) is None,
                Err(m) => reading_refused(self.model()) == Some(m@),
            },
    {
        let current_id: usize = self.buffer().id();
        let source: usize = match self.find_view(current_id) {
            Some(k) => self.panels.pseudocode[k].source_id,
            None => current_id,
        };
        let index: usize = match self.find_buffer_index_by_id(source) {
            Some(index) => index,
            None => {
                return Err("The pseudocode source buffer has been closed".to_owned());
            },
        };
        proof {
            assert(self.model().bufs[index as int] == self.buffers@[index as int].model());
            reveal_strlit("");
            assert(""@ =~= Seq::empty());
        }
        let path = match self.buffers[index].file_path() {
            Some(path) => path,
            None => "",
        };
        match detect_from_path(path) {
            Some(Language::Java) | Some(Language::Markdown) => Ok((source, index)),
            _ => Err("Pseudocode supports Java and Markdown files".to_owned()),
        }
    }

    fn enter_reading(&mut self, text: &str, source: usize, title: String)
        requires
            old(self).wf(),
            old(self).next_id < usize::MAX,
            source == source_of(old(self).model()),
        ensures
            final(self).wf(),
            reading_entered(old(self).model(), final(self).model(), text@, source, title@),
            reading_files(old(self).registers, final(self).registers, old(self).model()),
    {
        match self.find_reading(source) {
            Some(k) => {
                self.buffer_at_mut(k).replace_content(text);
                self.switch_to_buffer(k);
            },
            None => {
                let mut buffer = Buffer::new_from_str(text);
                buffer.set_read_only(true);
                buffer.set_display_name(title);
                proof {
                    assert(is_diff_buffer(buffer.model(), title@, text@));
                }
                self.add_buffer(buffer);
            },
        }
    }

    fn open_reading(&mut self, reading: Reading, source: usize, index: usize)
        requires
            old(self).wf(),
            old(self).next_id < usize::MAX,
            source == source_of(old(self).model()),
            old(self).model().index_by_id(source, 0) == Some(index as int),
            index < old(self).model().bufs.len(),
        ensures
            final(self).wf(),
            reading_opened(old(self).model(), final(self).model(), reading),
            reading_files(old(self).registers, final(self).registers, old(self).model()),
    {
        let ghost e = self.model();
        proof {
            assert(self.model().bufs[index as int] == self.buffers@[index as int].model());
        }
        let source_version: usize = self.buffers[index].version();
        let title = title_for_reading(&self.buffers[index]);
        self.enter_reading(reading.text.as_str(), source, title);
        let ghost g = self.model();
        let v = PseudocodeView {
            buffer_id: self.buffer().id(),
            source_id: source,
            source_version,
            view_version: self.buffer().version(),
            highlights: reading.highlights,
            markdown: reading.markdown,
        };
        let ghost view = v;
        self.insert_view(v);
        self.jump_to_line(reading.view_line, 0);
        let ghost h = self.model();
        self.lsp.needs_lsp_init = false;
        self.settle_in("Pseudocode · Enter: source · r: refresh · :set nopseudo: off");
        proof {
            assert(reading_opened_as(e, self.model(), reading, g, h, view));
        }
    }

    /// Shows a reading of the current source, or makes it anew; or leaves it.
    pub fn set_pseudocode(
        &mut self,
        enabled: bool,
        position: (usize, usize),
        reading: Result<Reading, String>,
    ) -> (res: Result<(), String>)
        requires
            old(self).wf(),
            old(self).next_id < usize::MAX,
        ensures
            final(self).wf(),
            if enabled {
                &&& reading_asked(old(self).model(), final(self).model(), reading, res)
                &&& asked_files(
                    old(self).registers,
                    final(self).registers,
                    old(self).model(),
                    reading,
                )
            } else {
                &&& reading_left(
                    old(self).model(),
                    final(self).model(),
                    false,
                    position,
                    reading,
                    res,
                )
                &&& left_files(
                    old(self).registers,
                    final(self).registers,
                    old(self).model(),
                    false,
                    reading,
                )
            },
    {
        if !enabled {
            return self.leave_pseudocode(false, position, reading);
        }
        self.show_reading(reading)
    }

    fn show_reading(&mut self, reading: Result<Reading, String>) -> (res: Result<(), String>)
        requires
            old(self).wf(),
            old(self).next_id < usize::MAX,
        ensures
            final(self).wf(),
            reading_asked(old(self).model(), final(self).model(), reading, res),
            asked_files(old(self).registers, final(self).registers, old(self).model(), reading),
    {
        let (source, index) = match self.source_index() {
            Ok(found) => found,
            Err(message) => {
                return Err(message);
            },
        };
        match reading {
            Ok(reading) => {
                self.open_reading(reading, source, index);
                Ok(())
            },
            Err(error) => Err(error),
        }
    }

    fn clear_orphan(&mut self, k: usize)
        requires
            old(self).wf(),
            k < old(self).model().ui.views.len(),
        ensures
            final(self).wf(),
            final(self).registers == old(self).registers,
            final(self).model() == orphan_cleared(old(self).model(), k as int),
    {
        let _ = self.panels.pseudocode.remove(k);
        let b = self.buffer_mut();
        b.replace_content("");
        b.set_read_only(false);
        b.set_display_name("[No Name]".to_owned());
        proof {
            reveal_strlit("");
            assert(""@ =~= Seq::empty());
        }
        self.set_mode(Mode::Normal);
        self.set_status_message("Pseudocode off; source buffer was closed");
        self.mark_dirty();
    }

    /// Leaves a reading for its source; with `jump`, at the place of the source
    /// that the cursor's place shows. A reading that does not show its source
    /// as it is now is made anew first.
    pub fn leave_pseudocode(
        &mut self,
        jump: bool,
        position: (usize, usize),
        reading: Result<Reading, String>,
    ) -> (res: Result<(), String>)
        requires
            old(self).wf(),
            old(self).next_id < usize::MAX,
        ensures
            final(self).wf(),
            reading_left(old(self).model(), final(self).model(), jump, position, reading, res),
            left_files(
                old(self).registers,
                final(self).registers,
                old(self).model(),
                jump,
                reading,
            ),
    {
        let ghost e = self.model();
        let k: usize = match self.find_view(self.buffer().id()) {
            Some(k) => k,
            None => {
                return Ok(());
            },
        };
        let view = &self.panels.pseudocode[k];
        let (source_id, source_version, view_version) = (
            view.source_id,
            view.source_version,
            view.view_version,
        );
        let index: usize = match self.find_buffer_index_by_id(source_id) {
            Some(index) => index,
            None => {
                if jump {
                    return Err(
                        "Source buffer closed; use :set nopseudo to close this view".to_owned(),
                    );
                }
                self.clear_orphan(k);
                return Ok(());
            },
        };
        if !jump {
            self.switch_to_buffer(index);
            self.settle_in("Pseudocode off");
            return Ok(());
        }
        proof {
            assert(self.model().bufs[index as int] == self.buffers@[index as int].model());
        }
        if self.buffers[index].version() != source_version || self.buffer().version()
            != view_version {
            let res = self.show_reading(reading);
            let ghost g = self.model();
            proof {
                assert(reading_asked(e, g, reading, res));
            }
            if res.is_ok() {
                self.set_status_message(
                    "Source changed; pseudocode refreshed. Press Enter to open source.",
                );
            }
            return res;
        }
        let text = match self.buffers[index].line_text(position.0) {
            Some(text) => text,
            None => String::new(),
        };
        let column: usize = grapheme_index_for_byte(text.as_str(), position.1);
        proof {
            if position.0 >= line_count(e.bufs[index as int].text) {
                assert(text@ =~= Seq::empty());
            }
        }
        self.switch_to_buffer(index);
        let ghost g = self.model();
        self.jump_to_line(position.0, column);
        let ghost h = self.model();
        self.settle_in("Source · :set pseudo to return to pseudocode");
        proof {
            assert(jumped(g, h, position.0, source_column(e.bufs[index as int].text, position)));
        }
        Ok(())
    }

    fn cancel_pseudocode_command(&mut self)
        ensures
            final(self).model() == command_refused(old(self).model()),
            final(self).registers == old(self).registers,
    {
        self.input.pending_command = None;
        self.input.pending_operator = None;
        self.input.pending_register = None;
        self.input.count = None;
        self.set_status_message("Pseudocode is a reading view; press Enter to edit source");
    }

    /// Handles a key in a reading; whether it was taken. Motions and searches
    /// are left to the editor.
    pub fn handle_pseudocode_key(
        &mut self,
        key: KeyEvent,
        position: (usize, usize),
        reading: Result<Reading, String>,
    ) -> (taken: bool)
        requires
            old(self).wf(),
            old(self).next_id < usize::MAX,
        ensures
            final(self).wf(),
            reading_key_done(
                old(self).model(),
                final(self).model(),
                key,
                position,
                reading,
                taken,
            ),
            key_files(
                old(self).registers,
                final(self).registers,
                old(self).model(),
                key,
                reading,
            ),
    {
        let ghost e = self.model();
        if !self.is_pseudocode_buffer() || self.mode() != Mode::Normal {
            return false;
        }
        match decide_reading_key(self.input.pending_command, key) {
            ReadingKey::Pass => false,
            ReadingKey::Refuse => {
                self.cancel_pseudocode_command();
                true
            },
            ReadingKey::OpenSource => {
                let res = self.leave_pseudocode(true, position, reading);
                let ghost g = self.model();
                proof {
                    assert(reading_left(e, g, true, position, reading, res));
                }
                if let Err(error) = &res {
                    self.set_status_message(error.as_str());
                }
                proof {
                    assert(self.model() == told(g, res));
                }
                true
            },
            ReadingKey::Refresh => {
                let res = self.show_reading(reading);
                let ghost g = self.model();
                proof {
                    assert(reading_asked(e, g, reading, res));
                }
                if let Err(error) = &res {
                    self.set_status_message(error.as_str());
                }
                proof {
                    assert(self.model() == told(g, res));
                }
                true
            },
            ReadingKey::Close => {
                let res = self.leave_pseudocode(false, position, reading);
                let ghost g = self.model();
                proof {
                    assert(reading_left(e, g, false, position, reading, res));
                }
                if let Err(error) = &res {
                    self.set_status_message(error.as_str());
                }
                proof {
                    assert(self.model() == told(g, res));
                }
                true
            },
        }
    }
}

/// Where a cluster of a line starts, in bytes; where the line ends for one
/// behind it.
fn cluster_start(text: &str, col: usize) -> (byte: usize)
    ensures
        byte == cluster_byte(text@, col),
{
    let parts = graphemes(text);
    let ghost v = views(parts@);
    if col >= parts.len() {
        return byte_len(text);
    }
    let mut at: usize = 0;
    let mut k: usize = 0;
    while k < col
        invariant
            k <= col < parts.len(),
            v == views(parts@),
            at == cluster_bytes(v, k as int),
        decreases col - k,
    {
        proof {
            assert(v[k as int] == parts@[k as int]@);
        }
        at = at.saturating_add(byte_len(parts[k].as_str()));
        k += 1;
    }
    at
}

fn title_for_reading(b: &Buffer) -> (title: String)
    ensures
        title@ == reading_title(b.model().path),
{
    let mut title = "Pseudocode: ".to_owned();
    let ghost start = title@;
    if let Some(path) = b.file_path() {
        if let Some(name) = path_name(path) {
            title.append(name.as_str());
            return title;
        }
    }
    proof {
        assert(start + Seq::<char>::empty() =~= start);
    }
    title
}

/// No key changes the text of a reading: a key is a motion or a search, or it
/// opens the source, makes the reading anew, leaves it, or is refused and
/// leaves no command behind.
pub proof fn reading_keys_change_no_text(e: Ed, key: KeyEvent)
    ensures
        command_refused(e).bufs == e.bufs,
        key.modifiers.alt || key.modifiers.logo ==> reading_key(e.input.pending_command, key)
            == ReadingKey::Refuse,
        key.code == KeyCode::Char('i') || key.code == KeyCode::Char('d') || key.code
            == KeyCode::Char('x') || key.code == KeyCode::Char('p') || key.code == KeyCode::Char(
            'o',
        ) || key.code == KeyCode::Char('v') ==> reading_key(e.input.pending_command, key)
            == ReadingKey::Refuse || key.modifiers.control,
{
}

/// Every reading is an open buffer, and another one than its source.
pub open spec fn views_are_open(e: Ed) -> bool {
    forall|k: int|
        0 <= k < e.ui.views.len() ==> e.index_by_id((#[trigger] e.ui.views[k]).buffer_id, 0) is Some
            && e.ui.views[k].buffer_id != e.ui.views[k].source_id
}

proof fn index_is(e: Ed, id: usize, k: int)
    requires
        0 <= k,
    ensures
        match e.index_by_id(id, k) {
            Some(i) => k <= i < e.bufs.len() && e.bufs[i].id == id,
            None => forall|i: int| k <= i < e.bufs.len() ==> (#[trigger] e.bufs[i]).id != id,
        },
    decreases e.bufs.len() - k,
{
    if k < e.bufs.len() && e.bufs[k].id != id {
        index_is(e, id, k + 1);
    }
}

proof fn view_of_is(views: Seq<PseudocodeView>, source: usize, k: int)
    requires
        0 <= k,
    ensures
        match view_of(views, source, k) {
            Some(i) => k <= i < views.len() && views[i].source_id == source,
            None => forall|i: int| k <= i < views.len() ==> (#[trigger] views[i]).source_id != source,
        },
    decreases views.len() - k,
{
    if k < views.len() && views[k].source_id != source {
        view_of_is(views, source, k + 1);
    }
}

proof fn view_at_is(views: Seq<PseudocodeView>, id: usize, k: int)
    requires
        0 <= k,
    ensures
        match view_at(views, id, k) {
            Some(i) => k <= i < views.len() && views[i].buffer_id == id && forall|j: int|
                k <= j < i ==> (#[trigger] views[j]).buffer_id != id,
            None => forall|i: int| k <= i < views.len() ==> (#[trigger] views[i]).buffer_id != id,
        },
    decreases views.len() - k,
{
    if k < views.len() && views[k].buffer_id != id {
        view_at_is(views, id, k + 1);
    }
}

/// The view that was noted is the one that its buffer is found by.
proof fn noted_view_is_found(views: Seq<PseudocodeView>, v: PseudocodeView)
    ensures
        ({
            let all = with_view(views, v);
            let k = view_at(all, v.buffer_id, 0);
            &&& k is Some
            &&& 0 <= k->0 < all.len()
            &&& all[k->0] == v
            &&& forall|i: int| 0 <= i < all.len() ==> (#[trigger] all[i]) == v || (i < views.len()
                && all[i] == views[i])
        }),
{
    let all = with_view(views, v);
    view_at_is(views, v.buffer_id, 0);
    view_at_is(all, v.buffer_id, 0);
    match view_at(views, v.buffer_id, 0) {
        Some(i) => {
            assert(all[i] == v);
            let k = view_at(all, v.buffer_id, 0)->0;
            if k < i {
                assert(all[k] == views[k]);
            }
        },
        None => {
            assert(all[views.len() as int] == v);
            let k = view_at(all, v.buffer_id, 0)->0;
            if k < views.len() {
                assert(all[k] == views[k]);
            }
        },
    }
}

/// What opening a reading leaves: the source, the other buffers' places, and
/// a view of the source that leads to the reading.
proof fn opened_leaves(
    e: Ed,
    f: Ed,
    r: Reading,
    g: Ed,
    h: Ed,
    v: PseudocodeView,
)
    requires
        e.wf(),
        e.ids_are_distinct(),
        views_are_open(e),
        reading_refused(e) is None,
        reading_opened_as(e, f, r, g, h, v),
    ensures
        ({
            let s = e.index_by_id(source_of(e), 0)->0;
            &&& 0 <= s < e.bufs.len() <= f.bufs.len()
            &&& f.bufs[s] == e.bufs[s]
            &&& existing_reading(e, source_of(e)) is Some ==> f.bufs.len() == e.bufs.len()
            &&& forall|i: int| 0 <= i < e.bufs.len() ==> (#[trigger] f.bufs[i]).id == e.bufs[i].id
            &&& f.cur().id == v.buffer_id
            &&& 0 <= f.current < f.bufs.len()
            &&& f.ui.views == with_view(e.ui.views, v)
        }),
{
    let source = source_of(e);
    index_is(e, source, 0);
    let s = e.index_by_id(source, 0)->0;
    match existing_reading(e, source) {
        Some(k) => {
            view_of_is(e.ui.views, source, 0);
            let j = view_of(e.ui.views, source, 0)->0;
            index_is(e, e.ui.views[j].buffer_id, 0);
            assert(k != s);
            assert(g.current == k);
            assert(g.bufs == e.bufs.update(k, e.bufs[k].replaced(r.text@)));
        },
        None => {
            let b = choose|b: Buf| #[trigger]
                is_diff_buffer(b, reading_title(e.bufs[s].path), r.text@) && g == added(e, b, true);
            assert(g.bufs == e.bufs.push(e.taken_in(b)));
        },
    }
    let noted = Ed { ui: Ui { views: with_view(g.ui.views, v), ..g.ui }, ..g };
    assert(h.bufs == noted.bufs.update(noted.current, h.cur()));
    assert(h.cur().id == g.cur().id);
}

/// Reading a source leaves the source as it is: its text, its history, its
/// cursor and its path.
pub proof fn reading_keeps_the_source(e: Ed, f: Ed, r: Reading)
    requires
        e.wf(),
        e.ids_are_distinct(),
        views_are_open(e),
        reading_refused(e) is None,
        reading_opened(e, f, r),
    ensures
        ({
            let s = e.index_by_id(source_of(e), 0)->0;
            0 <= s < f.bufs.len() && f.bufs[s] == e.bufs[s]
        }),
{
    let (g, h, v) = choose|g: Ed, h: Ed, v: PseudocodeView| #[trigger]
        reading_opened_as(e, f, r, g, h, v);
    opened_leaves(e, f, r, g, h, v);
}

/// Reading a source again shows the reading that there is: no buffer is added.
pub proof fn reading_again_adds_no_buffer(e: Ed, f: Ed, r: Reading, f2: Ed, r2: Reading)
    requires
        e.wf(),
        e.ids_are_distinct(),
        views_are_open(e),
        reading_refused(e) is None,
        reading_opened(e, f, r),
        reading_opened(f, f2, r2),
    ensures
        f2.bufs.len() == f.bufs.len(),
{
    let (g, h, v) = choose|g: Ed, h: Ed, v: PseudocodeView| #[trigger]
        reading_opened_as(e, f, r, g, h, v);
    opened_leaves(e, f, r, g, h, v);
    noted_view_is_found(e.ui.views, v);
    let source = source_of(e);
    assert(source_of(f) == source);
    view_of_is(f.ui.views, source, 0);
    let noted = view_at(f.ui.views, v.buffer_id, 0)->0;
    assert(f.ui.views[noted].source_id == source);
    let j = view_of(f.ui.views, source, 0)->0;
    let id = f.ui.views[j].buffer_id;
    index_is(f, id, 0);
    if f.ui.views[j] == v {
        assert(f.bufs[f.current].id == id);
    } else {
        assert(f.ui.views[j] == e.ui.views[j]);
        index_is(e, id, 0);
        let i = e.index_by_id(id, 0)->0;
        assert(f.bufs[i].id == id);
    }
    assert(existing_reading(f, source) is Some);
    let (g2, h2, v2) = choose|g2: Ed, h2: Ed, v2: PseudocodeView| #[trigger]
        reading_opened_as(f, f2, r2, g2, h2, v2);
    let k = existing_reading(f, source)->0;
    assert(g2.bufs.len() == f.bufs.len());
}

/// Each reading is an open buffer without a path that cannot be changed, and
/// another one than its source.
pub open spec fn readings_are_open(e: Ed) -> bool {
    &&& e.ids_are_distinct()
    &&& views_are_open(e)
    &&& forall|k: int, i: int|
        #![trigger e.ui.views[k], e.bufs[i]]
        0 <= k < e.ui.views.len() && 0 <= i < e.bufs.len() && e.bufs[i].id
            == e.ui.views[k].buffer_id ==> e.bufs[i].read_only && e.bufs[i].path is None
}

/// What is shown once a reading was opened.
proof fn opened_is_a_reading(e: Ed, f: Ed, r: Reading, g: Ed, h: Ed, v: PseudocodeView)
    requires
        e.wf(),
        readings_are_open(e),
        e.next_id < usize::MAX || existing_reading(e, source_of(e)) is Some,
        reading_refused(e) is None,
        reading_opened_as(e, f, r, g, h, v),
    ensures
        f.cur().read_only,
        f.cur().path is None,
        f.cur().text == r.text@,
        f.input.mode == Mode::Normal,
        f.cur().id == v.buffer_id,
        v.buffer_id != v.source_id,
        forall|i: int|
            0 <= i < f.bufs.len() && i != f.current ==> i < e.bufs.len() && #[trigger] f.bufs[i]
                == e.bufs[i],
        f.current < e.bufs.len() ==> f.bufs.len() == e.bufs.len() && f.next_id == e.next_id
            && f.cur().id == e.bufs[f.current].id,
        f.current >= e.bufs.len() ==> f.bufs.len() == e.bufs.len() + 1 && f.next_id == e.next_id
            + 1 && f.cur().id == e.next_id,
{
    let source = source_of(e);
    index_is(e, source, 0);
    opened_leaves(e, f, r, g, h, v);
    let s = e.index_by_id(source, 0)->0;
    match existing_reading(e, source) {
        Some(k) => {
            view_of_is(e.ui.views, source, 0);
            let j = view_of(e.ui.views, source, 0)->0;
            index_is(e, e.ui.views[j].buffer_id, 0);
            assert(e.bufs[k].id == e.ui.views[j].buffer_id);
            assert(e.bufs[k].read_only && e.bufs[k].path is None);
            assert(g.bufs == e.bufs.update(k, e.bufs[k].replaced(r.text@)));
            assert(e.bufs[k].replaced(r.text@).text =~= r.text@);
        },
        None => {
            let b = choose|b: Buf| #[trigger]
                is_diff_buffer(b, reading_title(e.bufs[s].path), r.text@) && g == added(e, b, true);
            assert(g.bufs == e.bufs.push(e.taken_in(b)));
            assert(g.next_id == e.next_id + 1);
        },
    }
    let noted = Ed { ui: Ui { views: with_view(g.ui.views, v), ..g.ui }, ..g };
    assert(h.bufs == noted.bufs.update(noted.current, h.cur()));
}

/// Opening a reading keeps what is to hold of readings.
proof fn readings_stay_open(e: Ed, f: Ed, r: Reading, g: Ed, h: Ed, v: PseudocodeView)
    requires
        e.wf(),
        readings_are_open(e),
        e.next_id < usize::MAX || existing_reading(e, source_of(e)) is Some,
        reading_refused(e) is None,
        reading_opened_as(e, f, r, g, h, v),
    ensures
        readings_are_open(f),
{
    opened_leaves(e, f, r, g, h, v);
    opened_is_a_reading(e, f, r, g, h, v);
    noted_view_is_found(e.ui.views, v);
    assert forall|k: int| 0 <= k < f.ui.views.len() implies f.index_by_id(
        (#[trigger] f.ui.views[k]).buffer_id,
        0,
    ) is Some && f.ui.views[k].buffer_id != f.ui.views[k].source_id by {
        let id = f.ui.views[k].buffer_id;
        index_is(f, id, 0);
        if f.ui.views[k] == v {
            assert(f.bufs[f.current].id == id);
        } else {
            assert(f.ui.views[k] == e.ui.views[k]);
            index_is(e, id, 0);
            let i = e.index_by_id(id, 0)->0;
            assert(f.bufs[i].id == id);
        }
    }
    assert forall|i: int| 0 <= i < f.bufs.len() implies (#[trigger] f.bufs[i]).id < f.next_id by {
        if i < e.bufs.len() {
            assert(f.bufs[i].id == e.bufs[i].id);
        }
    }
    assert forall|i: int, j: int| 0 <= i < j < f.bufs.len() implies (#[trigger] f.bufs[i]).id != (
    #[trigger] f.bufs[j]).id by {
        assert(f.bufs[i].id == e.bufs[i].id);
        if j < e.bufs.len() {
            assert(f.bufs[j].id == e.bufs[j].id);
        }
    }
    assert forall|k: int, i: int|
        #![trigger f.ui.views[k], f.bufs[i]]
        0 <= k < f.ui.views.len() && 0 <= i < f.bufs.len() && f.bufs[i].id
            == f.ui.views[k].buffer_id implies f.bufs[i].read_only && f.bufs[i].path is None by {
        if i != f.current {
            assert(f.bufs[i] == e.bufs[i]);
            if f.ui.views[k] == v {
                assert(f.bufs[f.current].id == f.bufs[i].id);
            } else {
                assert(f.ui.views[k] == e.ui.views[k]);
            }
        }
    }
}

/// What is asked of a reading that was opened a moment ago.
proof fn source_stays_readable(e: Ed, f: Ed, r: Reading, g: Ed, h: Ed, v: PseudocodeView)
    requires
        e.wf(),
        readings_are_open(e),
        reading_refused(e) is None,
        reading_opened_as(e, f, r, g, h, v),
    ensures
        source_of(f) == source_of(e),
        reading_refused(f) is None,
        existing_reading(f, source_of(e)) is Some,
        view_at(f.ui.views, f.cur().id, 0) is Some,
{
    opened_leaves(e, f, r, g, h, v);
    noted_view_is_found(e.ui.views, v);
    let source = source_of(e);
    index_is(e, source, 0);
    index_is(f, source, 0);
    let s = e.index_by_id(source, 0)->0;
    assert(f.bufs[s].id == source);
    view_of_is(f.ui.views, source, 0);
    let noted = view_at(f.ui.views, v.buffer_id, 0)->0;
    assert(f.ui.views[noted].source_id == source);
    let j = view_of(f.ui.views, source, 0)->0;
    let id = f.ui.views[j].buffer_id;
    index_is(f, id, 0);
    if f.ui.views[j] == v {
        assert(f.bufs[f.current].id == id);
    } else {
        assert(f.ui.views[j] == e.ui.views[j]);
        index_is(e, id, 0);
        let i = e.index_by_id(id, 0)->0;
        assert(f.bufs[i].id == id);
    }
    first_index_stays(e, f, source, 0);
}

proof fn first_index_stays(e: Ed, f: Ed, id: usize, k: int)
    requires
        0 <= k,
        e.bufs.len() <= f.bufs.len(),
        forall|i: int| 0 <= i < e.bufs.len() ==> (#[trigger] f.bufs[i]).id == e.bufs[i].id,
        e.index_by_id(id, k) is Some,
    ensures
        f.index_by_id(id, k) == e.index_by_id(id, k),
    decreases e.bufs.len() - k,
{
    if k < e.bufs.len() && e.bufs[k].id != id {
        assert(f.bufs[k].id == e.bufs[k].id);
        first_index_stays(e, f, id, k + 1);
    }
}

/// Asking for a reading. Where it is refused or cannot be made nothing changes,
/// and it is refused where the source is neither Java nor Markdown. Otherwise
/// the source stays as it is, its text, version and path; the current buffer is
/// a reading of it, without a path, that cannot be changed, in normal mode. To
/// ask again makes the same buffer anew, and adds none.
pub proof fn asking_for_a_reading(
    e: Ed,
    f: Ed,
    reading: Result<Reading, String>,
    res: Result<(), String>,
    f2: Ed,
    again: Result<Reading, String>,
    res2: Result<(), String>,
)
    requires
        e.wf(),
        e.next_id < usize::MAX,
        readings_are_open(e),
        reading_asked(e, f, reading, res),
        reading_asked(f, f2, again, res2),
    ensures
        res is Err ==> f == e,
        match e.index_by_id(source_of(e), 0) {
            Some(s) => !readable(e.bufs[s].path) ==> (res matches Err(m) && m@
                == "Pseudocode supports Java and Markdown files"@),
            None => res is Err,
        },
        res is Ok <==> reading_refused(e) is None && reading is Ok,
        readings_are_open(f),
        res is Ok ==> {
            let s = e.index_by_id(source_of(e), 0)->0;
            &&& 0 <= s < f.bufs.len()
            &&& f.bufs[s] == e.bufs[s]
            &&& f.current != s
            &&& f.cur().read_only
            &&& f.cur().path is None
            &&& f.cur().text == reading->Ok_0.text@
            &&& view_at(f.ui.views, f.cur().id, 0) is Some
            &&& f.input.mode == Mode::Normal
            &&& res2 is Ok <==> again is Ok
            &&& f2.bufs.len() == f.bufs.len()
            &&& f2.bufs[s] == e.bufs[s]
            &&& res2 is Ok ==> f2.cur().read_only && f2.cur().path is None && f2.cur().text
                == again->Ok_0.text@ && f2.input.mode == Mode::Normal
        },
{
    index_is(e, source_of(e), 0);
    if res is Ok {
        let r = reading->Ok_0;
        let s = e.index_by_id(source_of(e), 0)->0;
        let (g, h, v) = choose|g: Ed, h: Ed, v: PseudocodeView| #[trigger]
            reading_opened_as(e, f, r, g, h, v);
        opened_leaves(e, f, r, g, h, v);
        opened_is_a_reading(e, f, r, g, h, v);
        readings_stay_open(e, f, r, g, h, v);
        source_stays_readable(e, f, r, g, h, v);
        first_index_stays(e, f, source_of(e), 0);
        if res2 is Ok {
            let r2 = again->Ok_0;
            let (g2, h2, v2) = choose|g2: Ed, h2: Ed, v2: PseudocodeView| #[trigger]
                reading_opened_as(f, f2, r2, g2, h2, v2);
            assert(f.wf()) by {
                assert(f.tabs.wf());
            }
            opened_leaves(f, f2, r2, g2, h2, v2);
            opened_is_a_reading(f, f2, r2, g2, h2, v2);
        }
    }
}

} // verus!
