//! The list of buffers: finding, switching, adding and deleting them.
use crate::buffer::{Buf, Buffer, LineEnding};
use crate::editor::clipboard::ClipboardBackend;
use crate::editor::lsp_state::{Lsp, Sync};
use crate::editor::register::{RegisterManager, Registers};
use crate::editor::text_edits::line_feeds;
use crate::editor::ui_panels::Ui;
use crate::editor::{buf_models, Ed, Editor, Recorded};
use crate::fmt::{decimal, digits};
use crate::syntax::{last_component, path_name};
use crate::text::chars_of;
use crate::unicode::views;
use vstd::prelude::*;

verus! {

/// A path whose file name is in square brackets.
pub open spec fn scratch_path(path: Seq<char>) -> bool {
    match last_component(path, path.len() as int) {
        Some(name) => name.len() > 0 && name[0] == '[' && name.last() == ']',
        None => false,
    }
}

/// Whether a path names a scratch buffer, such as `[LspInfo]`. Such paths do
/// not go to the registers of the current and the alternate file.
pub fn is_scratch_path(path: &str) -> (res: bool)
    ensures
        res == scratch_path(path@),
{
    match path_name(path) {
        Some(name) => {
            let cs = chars_of(name.as_str());
            cs.len() > 0 && cs[0] == '[' && cs[cs.len() - 1] == ']'
        },
        None => false,
    }
}

/// A buffer that is no document: its path looks like that of a scratch
/// buffer, no such file exists, and it was never loaded or saved.
pub open spec fn scratch_buffer(b: Buf, exists_on_disk: bool) -> bool {
    match b.path {
        Some(path) => scratch_path(path) && !exists_on_disk && b.mtime is None,
        None => false,
    }
}

/// Whether a buffer may be dropped without being saved.
pub fn is_scratch_buffer(buffer: &Buffer, exists_on_disk: bool) -> (res: bool)
    ensures
        res == scratch_buffer(buffer.model(), exists_on_disk),
{
    match buffer.file_path() {
        Some(path) => is_scratch_path(path) && !exists_on_disk && buffer.file_mtime().is_none(),
        None => false,
    }
}

/// A path that stands in the file registers.
pub open spec fn document_path(path: Option<Seq<char>>) -> bool {
    match path {
        Some(path) => !scratch_path(path),
        None => false,
    }
}

/// The file registers after one buffer was left and another entered.
pub open spec fn files_switched(
    r: Registers,
    left: Option<Seq<char>>,
    entered: Option<Seq<char>>,
) -> Registers {
    let r = if document_path(left) {
        Registers { alternate_file: left->0, ..r }
    } else {
        r
    };
    if document_path(entered) {
        Registers { current_file: entered->0, ..r }
    } else {
        r
    }
}

impl Lsp {
    /// Nothing is shown that a server said of another file.
    pub open spec fn cleared(self) -> Lsp {
        Lsp {
            count: (0, 0, 0, 0),
            hover: None,
            hover_scroll: (0, 0),
            hover_position: None,
            status: Seq::empty(),
            ..self
        }
    }

    pub open spec fn entered(self, needs_init: bool) -> Lsp {
        Lsp { needs_init, ..self.cleared() }
    }
}

impl Ed {
    /// What a server said of the file that was shown is gone.
    pub open spec fn without_lsp_ui(self) -> Ed {
        Ed { lsp: self.lsp.cleared(), ui: Ui { status: Seq::empty(), ..self.ui }, ..self }
    }

    /// Another buffer is shown.
    pub open spec fn entered(self, index: int) -> Ed {
        let e = Ed { current: index, marks: Seq::empty(), ..self }.without_lsp_ui();
        Ed { lsp: Lsp { needs_init: true, stale: true, ..e.lsp }, ..e }
    }

    /// Another buffer is shown, where there is one of that index.
    pub open spec fn switched_to(self, index: int) -> Ed {
        if 0 <= index < self.bufs.len() && index != self.current {
            self.entered(index)
        } else {
            self
        }
    }

    /// The index of the buffer, from the `k`th on, that has an id.
    pub open spec fn index_by_id(self, id: usize, k: int) -> Option<int>
        decreases self.bufs.len() - k,
    {
        if k < 0 || k >= self.bufs.len() {
            None
        } else if self.bufs[k].id == id {
            Some(k)
        } else {
            self.index_by_id(id, k + 1)
        }
    }

    /// A buffer as the editor takes it in: with an id of its own, and with the
    /// editor's indentation policy where it has none.
    pub open spec fn taken_in(self, b: Buf) -> Buf {
        Buf {
            id: self.next_id as usize,
            indent: if b.indent is None {
                Some(self.options.indent)
            } else {
                b.indent
            },
            ..b
        }
    }

    /// A buffer was added at the end of the list.
    pub open spec fn with_buffer(self, b: Buf) -> Ed {
        Ed { bufs: self.bufs.push(self.taken_in(b)), next_id: self.next_id + 1, ..self }
    }

    /// Each buffer has an id of its own, which no later one will have.
    pub open spec fn ids_are_distinct(self) -> bool {
        &&& forall|i: int| 0 <= i < self.bufs.len() ==> (#[trigger] self.bufs[i]).id < self.next_id
        &&& forall|i: int, j: int|
            0 <= i < j < self.bufs.len() ==> (#[trigger] self.bufs[i]).id != (
            #[trigger] self.bufs[j]).id
    }
}

/// The registers of an editor keep everything but the two file names.
pub open spec fn files_move<B: ClipboardBackend>(
    before: RegisterManager<B>,
    after: RegisterManager<B>,
    left: Option<Seq<char>>,
    entered: Option<Seq<char>>,
) -> bool {
    after.wf() && after.model() == files_switched(before.model(), left, entered) && after.clip()
        == before.clip()
}

/// The name under which a buffer is listed.
pub open spec fn listed_name(b: Buf) -> Seq<char> {
    match b.path {
        Some(path) => path,
        None => "[No Name]"@,
    }
}

/// A line for each of the first `k` buffers: whether it is shown, whether it
/// was changed, its number from one on and its name.
pub open spec fn listing(e: Ed, k: int) -> Seq<char>
    decreases k,
{
    if k <= 0 || k > e.bufs.len() {
        Seq::empty()
    } else {
        listing(e, k - 1) + if k - 1 == e.current {
            "%"@
        } else {
            " "@
        } + if e.bufs[k - 1].modified {
            "+"@
        } else {
            " "@
        } + " "@ + digits(k as nat) + ": "@ + listed_name(e.bufs[k - 1]) + "\n"@
    }
}

fn name_for_list(b: &Buffer) -> (s: String)
    ensures
        s@ == listed_name(b.model()),
{
    match b.file_path() {
        Some(path) => path.to_owned(),
        None => "[No Name]".to_owned(),
    }
}

impl<B: ClipboardBackend> Editor<B> {
    /// Gives a buffer the editor's indentation policy, where it has none.
    pub fn initialize_buffer_indent_options(&self, buffer: &mut Buffer)
        ensures
            final(buffer).model() == (Buf {
                indent: if old(buffer).model().indent is None {
                    Some(self.model().options.indent)
                } else {
                    old(buffer).model().indent
                },
                ..old(buffer).model()
            }),
    {
        if buffer.indent_options().is_none() {
            buffer.set_indent_options(self.options.indent);
        }
    }

    /// The buffer of an index.
    pub fn get_buffer(&self, id: usize) -> (res: Option<&Buffer>)
        ensures
            match res {
                Some(b) => id < self.model().bufs.len() && b.model()
                    == self.model().bufs[id as int],
                None => id >= self.model().bufs.len(),
            },
    {
        if id < self.buffers.len() {
            Some(&self.buffers[id])
        } else {
            None
        }
    }

    /// The buffer of an index.
    pub fn buffer_at(&self, index: usize) -> (res: Option<&Buffer>)
        ensures
            match res {
                Some(b) => index < self.model().bufs.len() && b.model()
                    == self.model().bufs[index as int],
                None => index >= self.model().bufs.len(),
            },
    {
        self.get_buffer(index)
    }

    /// The index at which the buffer with an id stands now.
    pub fn find_buffer_index_by_id(&self, buffer_id: usize) -> (res: Option<usize>)
        ensures
            match res {
                Some(k) => self.model().index_by_id(buffer_id, 0) == Some(k as int) && k
                    < self.model().bufs.len() && self.model().bufs[k as int].id == buffer_id,
                None => self.model().index_by_id(buffer_id, 0) is None,
            },
    {
        let mut k: usize = 0;
        while k < self.buffers.len()
            invariant
                k <= self.buffers.len(),
                self.model().index_by_id(buffer_id, k as int) == self.model().index_by_id(
                    buffer_id,
                    0,
                ),
            decreases self.buffers.len() - k,
        {
            proof {
                assert(self.model().bufs[k as int] == self.buffers@[k as int].model());
            }
            if self.buffers[k].id() == buffer_id {
                return Some(k);
            }
            k += 1;
        }
        None
    }

    /// The buffer with an id.
    pub fn get_buffer_by_id(&self, buffer_id: usize) -> (res: Option<&Buffer>)
        ensures
            match (res, self.model().index_by_id(buffer_id, 0)) {
                (Some(b), Some(k)) => b.model() == self.model().bufs[k],
                (None, None) => true,
                _ => false,
            },
    {
        match self.find_buffer_index_by_id(buffer_id) {
            Some(k) => Some(&self.buffers[k]),
            None => None,
        }
    }

    /// The buffer of an index.
    pub fn buffer_at_mut(&mut self, index: usize) -> (b: &mut Buffer)
        requires
            index < old(self).model().bufs.len(),
        ensures
            b.model() == old(self).model().bufs[index as int],
            final(self).model() == (Ed {
                bufs: old(self).model().bufs.update(index as int, final(b).model()),
                ..old(self).model()
            }),
            final(self).registers == old(self).registers,
            final(self).options == old(self).options,
    {
        proof {
            assert(buf_models(self.buffers@)[index as int] == self.buffers@[index as int].model());
            crate::editor::models_update(self.buffers@, index as int);
        }
        &mut self.buffers[index]
    }

    /// The buffer with an id.
    pub fn get_buffer_by_id_mut(&mut self, buffer_id: usize) -> (res: Option<&mut Buffer>)
        ensures
            match (res, old(self).model().index_by_id(buffer_id, 0)) {
                (Some(b), Some(k)) => b.model() == old(self).model().bufs[k] && final(self).model()
                    == (Ed {
                    bufs: old(self).model().bufs.update(k, final(b).model()),
                    ..old(self).model()
                }),
                (None, None) => final(self).model() == old(self).model(),
                _ => false,
            },
            final(self).registers == old(self).registers,
            final(self).options == old(self).options,
    {
        match self.find_buffer_index_by_id(buffer_id) {
            Some(k) => Some(self.buffer_at_mut(k)),
            None => None,
        }
    }

    /// Gives the current buffer a path, which is then the current file.
    pub fn set_file_path(&mut self, path: String)
        requires
            old(self).wf(),
        ensures
            final(self).wf(),
            final(self).model() == old(self).model().with_cur(
                (Buf { path: Some(path@), ..old(self).cur() }),
            ),
            final(self).registers.model() == (Registers {
                current_file: path@,
                ..old(self).registers.model()
            }),
            final(self).registers.clip() == old(self).registers.clip(),
    {
        let copy = path.clone();
        self.buffer_mut().set_file_path(copy);
        self.registers.set_current_file(path);
    }

    /// Adds a buffer; its index.
    pub fn push_buffer(&mut self, buf: Buffer) -> (index: usize)
        requires
            old(self).next_id < usize::MAX,
        ensures
            index == old(self).model().bufs.len(),
            final(self).model() == old(self).model().with_buffer(buf.model()),
            final(self).registers == old(self).registers,
            final(self).options == old(self).options,
    {
        let mut buf = buf;
        self.initialize_buffer_indent_options(&mut buf);
        buf.set_id(self.next_id);
        self.next_id += 1;
        let ghost before = buf_models(self.buffers@);
        let index: usize = self.buffers.len();
        self.buffers.push(buf);
        proof {
            assert(buf_models(self.buffers@) =~= before.push(buf.model()));
        }
        index
    }

    pub fn buffer_count(&self) -> (n: usize)
        ensures
            n == self.model().bufs.len(),
    {
        self.buffers.len()
    }

    pub fn current_buffer_index(&self) -> (n: usize)
        ensures
            n == self.model().current,
    {
        self.current
    }

    /// The paths of the buffers; `[No Name]` for a buffer without one.
    pub fn buffer_names(&self) -> (out: Vec<String>)
        ensures
            views(out@) == self.model().bufs.map_values(|b: Buf| listed_name(b)),
    {
        let mut out: Vec<String> = Vec::new();
        let mut k: usize = 0;
        while k < self.buffers.len()
            invariant
                k <= self.buffers.len(),
                out.len() == k,
                forall|i: int|
                    0 <= i < k ==> (#[trigger] out@[i])@ == listed_name(self.buffers@[i].model()),
            decreases self.buffers.len() - k,
        {
            out.push(name_for_list(&self.buffers[k]));
            k += 1;
        }
        proof {
            assert(views(out@) =~= self.model().bufs.map_values(|b: Buf| listed_name(b)));
        }
        out
    }

    /// A line for each buffer.
    pub fn list_buffers(&self) -> (out: String)
        ensures
            out@ == listing(self.model(), self.model().bufs.len() as int),
    {
        let mut out = String::new();
        let mut k: usize = 0;
        while k < self.buffers.len()
            invariant
                k <= self.buffers.len(),
                out@ == listing(self.model(), k as int),
            decreases self.buffers.len() - k,
        {
            let b = &self.buffers[k];
            proof {
                assert(self.model().bufs[k as int] == b.model());
            }
            out.append(
                if k == self.current {
                    "%"
                } else {
                    " "
                },
            );
            out.append(
                if b.is_modified() {
                    "+"
                } else {
                    " "
                },
            );
            out.append(" ");
            out.append(decimal(k as u64 + 1).as_str());
            out.append(": ");
            out.append(name_for_list(b).as_str());
            out.append("\n");
            k += 1;
        }
        out
    }

    /// Takes away what a server said of the file that was shown.
    pub fn clear_lsp_state(&mut self)
        ensures
            final(self).model() == old(self).model().without_lsp_ui(),
            final(self).registers == old(self).registers,
            final(self).options == old(self).options,
    {
        self.lsp.diagnostic_count = (0, 0, 0, 0);
        self.lsp.hover_info = None;
        self.lsp.hover_scroll = 0;
        self.lsp.hover_h_scroll = 0;
        self.lsp.hover_position = None;
        self.lsp.status = String::new();
        self.panels.status_message = String::new();
        proof {
            assert(self.lsp.status@ =~= Seq::empty());
            assert(self.panels.status_message@ =~= Seq::empty());
        }
    }

    /// Asks for the diagnostics of the current file again.
    pub fn request_diagnostics_refresh(&mut self)
        ensures
            final(self).model() == (Ed {
                lsp: Lsp { stale: true, ..old(self).model().lsp },
                ..old(self).model()
            }),
            final(self).registers == old(self).registers,
            final(self).options == old(self).options,
    {
        self.lsp.diagnostics_stale = true;
    }

    /// Drops the hover result that was kept.
    pub fn invalidate_hover_cache(&mut self)
        ensures
            final(self).model() == (Ed {
                lsp: Lsp { cache: None, ..old(self).model().lsp },
                ..old(self).model()
            }),
            final(self).registers == old(self).registers,
            final(self).options == old(self).options,
    {
        self.lsp.hover_cache = None;
    }

    fn remember_alternate(&mut self)
        requires
            old(self).wf(),
        ensures
            final(self).wf(),
            final(self).model() == old(self).model(),
            files_move(old(self).registers, final(self).registers, old(self).cur().path, None),
    {
        let path = match self.buffer().file_path() {
            Some(path) => if is_scratch_path(path) {
                None
            } else {
                Some(path.to_owned())
            },
            None => None,
        };
        if let Some(path) = path {
            self.registers.set_alternate_file(path);
        }
    }

    fn remember_current(&mut self)
        requires
            old(self).wf(),
        ensures
            final(self).wf(),
            final(self).model() == old(self).model(),
            files_move(old(self).registers, final(self).registers, None, old(self).cur().path),
    {
        let path = match self.buffer().file_path() {
            Some(path) => if is_scratch_path(path) {
                None
            } else {
                Some(path.to_owned())
            },
            None => None,
        };
        if let Some(path) = path {
            self.registers.set_current_file(path);
        }
    }

    fn enter(&mut self, index: usize)
        requires
            old(self).wf(),
            index < old(self).model().bufs.len(),
        ensures
            final(self).wf(),
            final(self).model() == old(self).model().entered(index as int),
            files_move(
                old(self).registers,
                final(self).registers,
                old(self).cur().path,
                old(self).model().bufs[index as int].path,
            ),
    {
        self.remember_alternate();
        self.current = index;
        self.lsp.needs_lsp_init = true;
        self.marks = Vec::new();
        proof {
            assert(self.marks@ =~= Seq::empty());
        }
        self.clear_lsp_state();
        self.remember_current();
        self.request_diagnostics_refresh();
    }

    /// Shows another buffer.
    pub fn switch_to_buffer(&mut self, index: usize)
        requires
            old(self).wf(),
        ensures
            final(self).wf(),
            final(self).model() == old(self).model().switched_to(index as int),
            if index < old(self).model().bufs.len() && index != old(self).model().current {
                files_move(
                    old(self).registers,
                    final(self).registers,
                    old(self).cur().path,
                    old(self).model().bufs[index as int].path,
                )
            } else {
                final(self).registers == old(self).registers
            },
    {
        if index < self.buffers.len() && index != self.current {
            self.enter(index);
        }
    }

    fn cycle_to(&mut self, index: usize)
        requires
            old(self).wf(),
            index < old(self).model().bufs.len(),
        ensures
            final(self).wf(),
            final(self).model() == cycled(old(self).model(), index as int),
            files_move(
                old(self).registers,
                final(self).registers,
                old(self).cur().path,
                old(self).model().bufs[index as int].path,
            ),
    {
        let left = match self.buffer().file_path() {
            Some(path) => Some(path.to_owned()),
            None => None,
        };
        self.enter(index);
        if left.is_some() {
            self.lsp.pending_did_close_file = left;
        }
    }

    /// Shows the next buffer, the first behind the last.
    pub fn next_buffer(&mut self)
        requires
            old(self).wf(),
        ensures
            final(self).wf(),
            ({
                let e = old(self).model();
                if e.bufs.len() > 1 {
                    &&& final(self).model() == cycled(e, next_index(e))
                    &&& files_move(
                        old(self).registers,
                        final(self).registers,
                        e.cur().path,
                        e.bufs[next_index(e)].path,
                    )
                } else {
                    final(self).model() == e && final(self).registers == old(self).registers
                }
            }),
    {
        let count: usize = self.buffers.len();
        if count > 1 {
            let next: usize = if self.current + 1 < count {
                self.current + 1
            } else {
                0
            };
            self.cycle_to(next);
        }
    }

    /// Shows the previous buffer, the last before the first.
    pub fn prev_buffer(&mut self)
        requires
            old(self).wf(),
        ensures
            final(self).wf(),
            ({
                let e = old(self).model();
                if e.bufs.len() > 1 {
                    &&& final(self).model() == cycled(e, prev_index(e))
                    &&& files_move(
                        old(self).registers,
                        final(self).registers,
                        e.cur().path,
                        e.bufs[prev_index(e)].path,
                    )
                } else {
                    final(self).model() == e && final(self).registers == old(self).registers
                }
            }),
    {
        let count: usize = self.buffers.len();
        if count > 1 {
            let previous: usize = if self.current > 0 {
                self.current - 1
            } else {
                count - 1
            };
            self.cycle_to(previous);
        }
    }

    /// Deletes the current buffer; whether the editor is to quit, because it
    /// was the only one.
    #[verifier::rlimit(60)]
    pub fn delete_current_buffer(&mut self) -> (quit: bool)
        requires
            old(self).wf(),
        ensures
            final(self).wf(),
            final(self).registers == old(self).registers,
            quit == (old(self).model().bufs.len() == 1),
            final(self).model() == if quit {
                old(self).model()
            } else {
                deleted(old(self).model())
            },
    {
        if self.buffers.len() == 1 {
            return true;
        }
        let path = match self.buffer().file_path() {
            Some(path) => Some(path.to_owned()),
            None => None,
        };
        if let Some(path) = path {
            self.lsp.remove_document(path.as_str());
        }
        let ghost before = buf_models(self.buffers@);
        let _ = self.buffers.remove(self.current);
        proof {
            assert(buf_models(self.buffers@) =~= before.remove(self.current as int));
        }
        if self.current >= self.buffers.len() {
            self.current = self.buffers.len() - 1;
        }
        self.clear_lsp_state();
        self.lsp.needs_lsp_init = true;
        self.request_diagnostics_refresh();
        false
    }

    /// Adds a buffer and shows it.
    pub fn add_buffer(&mut self, buffer: Buffer)
        requires
            old(self).wf(),
            old(self).next_id < usize::MAX,
        ensures
            final(self).wf(),
            final(self).registers == old(self).registers,
            final(self).model() == added(old(self).model(), buffer.model(), true),
    {
        let index: usize = self.push_buffer(buffer);
        self.current = index;
        self.clear_lsp_state();
        self.lsp.needs_lsp_init = true;
    }

    /// Shows a text in a buffer that cannot be changed and has no file.
    pub fn open_scratch_buffer(&mut self, title: &str, content: &str)
        requires
            old(self).wf(),
            old(self).next_id < usize::MAX,
        ensures
            final(self).wf(),
            final(self).registers == old(self).registers,
            exists|b: Buf| #[trigger]
                is_scratch(b, title@, content@) && final(self).model() == (Ed {
                    ui: Ui {
                        dirty: true,
                        ..added(old(self).model(), b, false).ui
                    },
                    ..added(old(self).model(), b, false)
                }),
    {
        let buffer = scratch(title, content);
        proof {
            assert(is_scratch(buffer.model(), title@, content@));
        }
        self.add_buffer(buffer);
        self.lsp.needs_lsp_init = false;
        self.mark_dirty();
    }

    /// The buffer whose file, as the disk names it, is the one looked for.
    pub fn find_buffer_by_path(&self, target: &str, canonical: &Vec<Option<String>>) -> (res: Option<
        usize,
    >)
        ensures
            match res {
                Some(k) => first_at(canonical@, target@, 0) == Some(k as int),
                None => first_at(canonical@, target@, 0) is None,
            },
    {
        let mut k: usize = 0;
        while k < canonical.len()
            invariant
                k <= canonical.len(),
                first_at(canonical@, target@, k as int) == first_at(canonical@, target@, 0),
            decreases canonical.len() - k,
        {
            if let Some(path) = &canonical[k] {
                if crate::text::same_text(path.as_str(), target) {
                    return Some(k);
                }
            }
            k += 1;
        }
        None
    }

    /// Shows a file: in the buffer that holds it already, or in the one it was
    /// loaded into.
    pub fn open_file(&mut self, path: &str, source: FileSource)
        requires
            old(self).wf(),
            source is Loaded ==> old(self).next_id < usize::MAX,
        ensures
            final(self).wf(),
            match source {
                FileSource::Open(index) => {
                    &&& final(self).model() == old(self).model().switched_to(index as int)
                    &&& if index < old(self).model().bufs.len() && index
                        != old(self).model().current {
                        files_move(
                            old(self).registers,
                            final(self).registers,
                            old(self).cur().path,
                            old(self).model().bufs[index as int].path,
                        )
                    } else {
                        final(self).registers == old(self).registers
                    }
                },
                FileSource::Loaded(b) => {
                    &&& final(self).model() == added(old(self).model(), b.model(), true)
                    &&& final(self).registers.model() == (Registers {
                        current_file: match b.model().path {
                            Some(p) => p,
                            None => path@,
                        },
                        ..old(self).registers.model()
                    })
                    &&& final(self).registers.clip() == old(self).registers.clip()
                },
            },
    {
        match source {
            FileSource::Open(index) => {
                self.switch_to_buffer(index);
            },
            FileSource::Loaded(buffer) => {
                let resolved = match buffer.file_path() {
                    Some(p) => p.to_owned(),
                    None => path.to_owned(),
                };
                self.add_buffer(buffer);
                self.registers.set_current_file(resolved);
            },
        }
    }

    /// Whether a buffer holds what its file does not: it was changed, or the
    /// changes recorded for it are not those that were saved.
    pub fn buffer_index_is_modified(&self, index: usize) -> (res: bool)
        ensures
            res == unsaved(self.model(), index as int),
    {
        if index >= self.buffers.len() {
            return false;
        }
        let b = &self.buffers[index];
        proof {
            assert(self.model().bufs[index as int] == b.model());
        }
        b.is_modified() || b.saved_changes() != self.recorded_count(b.id())
    }

    /// How many changes of a buffer were recorded.
    fn recorded_count(&self, id: usize) -> (n: usize)
        ensures
            n == recorded_for(self.model().undo, self.model().undo.len() as int, id),
    {
        let mut n: usize = 0;
        let mut k: usize = 0;
        while k < self.undo.len()
            invariant
                k <= self.undo.len(),
                n <= k,
                n == recorded_for(self.model().undo, k as int, id),
            decreases self.undo.len() - k,
        {
            proof {
                assert(self.model().undo[k as int].buffer == self.undo@[k as int].buffer);
            }
            if self.undo[k].buffer == id {
                n += 1;
            }
            k += 1;
        }
        n
    }

    /// Whether a buffer is shown: it is the current one, a tab page shows it,
    /// or a window does, given the indices of the buffers that windows show.
    pub fn buffer_is_open_in_ui(&self, index: usize, in_windows: &Vec<usize>) -> (res: bool)
        ensures
            res == open_in_ui(self.model(), index as int, in_windows@),
    {
        if index == self.current {
            return true;
        }
        if index >= self.buffers.len() {
            return false;
        }
        proof {
            assert(self.model().bufs[index as int] == self.buffers@[index as int].model());
        }
        let id: usize = self.buffers[index].id();
        if self.tabs.position_showing(id).is_some() {
            return true;
        }
        let mut k: usize = 0;
        while k < in_windows.len()
            invariant
                k <= in_windows.len(),
                index < self.model().bufs.len(),
                self.model().tabs.showing_index(self.model().bufs[index as int].id, 0) is None,
                index != self.model().current,
                forall|i: int| 0 <= i < k ==> in_windows@[i] != index,
            decreases in_windows.len() - k,
        {
            if in_windows[k] == index {
                proof {
                    assert(in_windows@.contains(index));
                }
                return true;
            }
            k += 1;
        }
        false
    }

    /// What saving all buffers does with one of them, given whether its file
    /// exists and, once it was asked for, whether the file changed on disk.
    pub fn write_step(
        &self,
        index: usize,
        force: bool,
        exists_on_disk: bool,
        changed: Option<&Result<bool, String>>,
    ) -> (step: WriteStep)
        requires
            index < self.model().bufs.len(),
        ensures
            step.model() == write_step_of(
                self.model(),
                index as int,
                force,
                exists_on_disk,
                match changed {
                    Some(r) => Some(changed_view(*r)),
                    None => None,
                },
            ),
    {
        let b = &self.buffers[index];
        proof {
            assert(self.model().bufs[index as int] == b.model());
        }
        if is_scratch_buffer(b, exists_on_disk) || !self.buffer_index_is_modified(index) {
            return WriteStep::Skip;
        }
        let path = match b.file_path() {
            Some(path) => path,
            None => {
                let count: usize = self.buffers.len();
                let mut message = "E141: No file name for buffer ".to_owned();
                message.append(decimal(index as u64 + 1).as_str());
                return WriteStep::Refuse(message);
            },
        };
        if b.is_read_only() && !force {
            let mut message = "E45: 'readonly' option is set (add ! to override): ".to_owned();
            message.append(path);
            return WriteStep::Refuse(message);
        }
        if !force && b.file_mtime().is_some() {
            match changed {
                None => {
                    return WriteStep::AskDisk(path.to_owned());
                },
                Some(Ok(true)) => {
                    let mut message =
                        "E211: File changed since editing started (add ! to override): ".to_owned();
                    message.append(path);
                    return WriteStep::Refuse(message);
                },
                Some(Ok(false)) => {},
                Some(Err(error)) => {
                    let mut message = "Failed to check ".to_owned();
                    message.append(path);
                    message.append(" before saving: ");
                    message.append(error.as_str());
                    return WriteStep::Refuse(message);
                },
            }
        }
        WriteStep::Write(path.to_owned())
    }

    /// Saves every changed buffer that has a file and is no scratch buffer,
    /// given what the disk said of each; how many were written, and why others
    /// could not be. A buffer that cannot be written does not stop the rest.
    pub fn write_all_modified_buffers(&mut self, force: bool, disk: &Vec<DiskAnswer>) -> (res: (
        usize,
        Vec<String>,
    ))
        requires
            old(self).wf(),
            disk.len() == old(self).model().bufs.len(),
        ensures
            final(self).wf(),
            final(self).registers == old(self).registers,
            (final(self).model(), res.0 as int, views(res.1@)) == all_written(
                old(self).model(),
                disk@,
                disk.len() as int,
                force,
            ),
    {
        let ghost e = self.model();
        let mut written: usize = 0;
        let mut errors: Vec<String> = Vec::new();
        let mut k: usize = 0;
        proof {
            assert(views(errors@) =~= Seq::empty());
        }
        while k < disk.len()
            invariant
                k <= disk.len() == self.model().bufs.len(),
                self.wf(),
                self.registers == old(self).registers,
                written <= k,
                (self.model(), written as int, views(errors@)) == all_written(
                    e,
                    disk@,
                    k as int,
                    force,
                ),
            decreases disk.len() - k,
        {
            let answer = &disk[k];
            let ghost said = views(errors@);
            match self.write_step(k, force, answer.exists, Some(&answer.changed)) {
                WriteStep::Write(path) => match &answer.saved {
                    Ok(mtime) => {
                        self.note_saved(k, *mtime);
                        written += 1;
                    },
                    Err(error) => {
                        let message = Self::save_failure(path.as_str(), error.as_str());
                        errors.push(message);
                        proof {
                            assert(views(errors@) =~= said.push(message@));
                        }
                    },
                },
                WriteStep::Refuse(message) => {
                    errors.push(message);
                    proof {
                        assert(views(errors@) =~= said.push(message@));
                    }
                },
                _ => {},
            }
            k += 1;
        }
        (written, errors)
    }

    /// What is said where a buffer could not be written.
    pub fn save_failure(path: &str, error: &str) -> (message: String)
        ensures
            message@ == "Failed to save "@ + path@ + ": "@ + error@,
    {
        let mut message = "Failed to save ".to_owned();
        message.append(path);
        message.append(": ");
        message.append(error);
        message
    }

    /// A buffer was written to its file.
    pub fn note_saved(&mut self, index: usize, mtime: Option<u64>)
        requires
            old(self).wf(),
            index < old(self).model().bufs.len(),
        ensures
            final(self).wf(),
            final(self).registers == old(self).registers,
            final(self).model() == saved(old(self).model(), index as int, mtime),
    {
        proof {
            assert(self.model().bufs[index as int] == self.buffers@[index as int].model());
        }
        let path = match self.buffers[index].file_path() {
            Some(path) => Some(path.to_owned()),
            None => None,
        };
        let n: usize = self.recorded_count(self.buffers[index].id());
        let b = self.buffer_at_mut(index);
        b.set_file_mtime(mtime);
        b.mark_clean();
        b.set_saved_changes(n);
        if let Some(path) = path {
            self.lsp.mark_document_saved(path.as_str());
        }
    }

    /// What a hidden buffer that a server's edit changed writes to its file,
    /// and which file; nothing where it may not be written. `changed` says
    /// whether the file changed on disk, if that could be found out.
    pub fn write_through_workspace_edit_buffer(&self, index: usize, changed: Option<bool>) -> (res:
        Option<(String, String)>)
        ensures
            match res {
                Some((path, content)) => may_write_through(self.model(), index as int, changed)
                    && self.model().bufs[index as int].path == Some(path@) && content@
                    == with_endings(
                    self.model().bufs[index as int].text,
                    self.model().bufs[index as int].text.len() as int,
                    self.model().bufs[index as int].ending,
                ),
                None => !may_write_through(self.model(), index as int, changed),
            },
    {
        if index >= self.buffers.len() {
            return None;
        }
        let b = &self.buffers[index];
        proof {
            assert(self.model().bufs[index as int] == b.model());
        }
        let path = match b.file_path() {
            Some(path) => path,
            None => {
                return None;
            },
        };
        if b.is_read_only() {
            return None;
        }
        let unchanged = match changed {
            Some(changed) => !changed,
            None => false,
        };
        if b.file_mtime().is_some() && !unchanged {
            return None;
        }
        Some((path.to_owned(), file_content(b)))
    }
}

/// Where the buffer of a file comes from.
pub enum FileSource {
    /// A buffer of this index holds the file already.
    Open(usize),
    /// The file was loaded into a buffer.
    Loaded(Buffer),
}

/// What saving all buffers does with one of them.
#[derive(Debug)]
pub enum WriteStep {
    /// Nothing is to be written.
    Skip,
    /// It must be known first whether this file changed on disk.
    AskDisk(String),
    /// It is not written, for the reason given.
    Refuse(String),
    /// It is written to this file.
    Write(String),
}

/// A model of what saving all buffers does with one of them.
pub ghost enum Step {
    Skip,
    AskDisk(Seq<char>),
    Refuse(Seq<char>),
    Write(Seq<char>),
}

/// What the disk said of a buffer's file: whether it exists, whether it
/// changed since it was loaded, and how writing it went, where it was written.
#[derive(Debug)]
pub struct DiskAnswer {
    pub exists: bool,
    pub changed: Result<bool, String>,
    /// When it was written, or why it could not be
    pub saved: Result<Option<u64>, String>,
}

/// Another buffer is shown, and the server is told that the file of the one
/// before it is closed.
pub open spec fn cycled(e: Ed, index: int) -> Ed {
    let f = e.entered(index);
    if e.cur().path is Some {
        Ed { lsp: Lsp { closing: e.cur().path, ..f.lsp }, ..f }
    } else {
        f
    }
}

pub open spec fn next_index(e: Ed) -> int {
    if e.current + 1 < e.bufs.len() {
        e.current + 1
    } else {
        0
    }
}

pub open spec fn prev_index(e: Ed) -> int {
    if e.current > 0 {
        e.current - 1
    } else {
        e.bufs.len() - 1
    }
}

/// The current buffer is gone.
pub open spec fn deleted(e: Ed) -> Ed {
    let bufs = e.bufs.remove(e.current);
    let f = Ed {
        bufs,
        current: if e.current < bufs.len() {
            e.current
        } else {
            bufs.len() - 1
        },
        ..e.without_lsp_ui()
    };
    Ed {
        lsp: Lsp {
            sync: if e.cur().path is Some {
                e.lsp.sync.remove(e.cur().path->0)
            } else {
                e.lsp.sync
            },
            needs_init: true,
            stale: true,
            ..f.lsp
        },
        ..f
    }
}

/// A buffer was added and is shown.
pub open spec fn added(e: Ed, b: Buf, needs_init: bool) -> Ed {
    let f = Ed { current: e.bufs.len() as int, ..e.with_buffer(b) }.without_lsp_ui();
    Ed { lsp: Lsp { needs_init, ..f.lsp }, ..f }
}

/// A new buffer that shows a text under a title in square brackets.
pub open spec fn is_scratch(b: Buf, title: Seq<char>, content: Seq<char>) -> bool {
    &&& b.text == content
    &&& b.path == Some("["@ + title + "]"@)
    &&& b.name is None
    &&& is_reading_copy(b)
}

/// A new buffer that cannot be changed.
pub open spec fn is_reading_copy(b: Buf) -> bool {
    &&& b.read_only
    &&& b.cursor.is_at(0, 0)
    &&& b.log.len() == 0
    &&& !b.modified
    &&& b.indent is None
    &&& b.mtime is None
    &&& b.ending == LineEnding::Lf
    &&& b.saved_changes == 0
}

/// A new buffer that shows a text under a title in square brackets.
pub(crate) fn scratch(title: &str, content: &str) -> (b: Buffer)
    ensures
        is_scratch(b.model(), title@, content@),
{
    let mut b = Buffer::new_from_str(content);
    b.set_read_only(true);
    let mut path = "[".to_owned();
    path.append(title);
    path.append("]");
    b.set_file_path(path);
    b
}

/// The first entry, from the `k`th on, that is a path.
pub open spec fn first_at(list: Seq<Option<String>>, path: Seq<char>, k: int) -> Option<int>
    decreases list.len() - k,
{
    if k < 0 || k >= list.len() {
        None
    } else if list[k] is Some && (list[k]->0)@ == path {
        Some(k)
    } else {
        first_at(list, path, k + 1)
    }
}

/// How many of the first `k` changes were recorded for a buffer.
pub open spec fn recorded_for(undo: Seq<Recorded>, k: int, id: usize) -> nat
    decreases k,
{
    if k <= 0 || k > undo.len() {
        0
    } else {
        recorded_for(undo, k - 1, id) + if undo[k - 1].buffer == id {
            1nat
        } else {
            0nat
        }
    }
}

/// A buffer holds what its file does not.
pub open spec fn unsaved(e: Ed, index: int) -> bool {
    0 <= index < e.bufs.len() && (e.bufs[index].modified || e.bufs[index].saved_changes
        != recorded_for(e.undo, e.undo.len() as int, e.bufs[index].id))
}

/// A buffer is shown somewhere.
pub open spec fn open_in_ui(e: Ed, index: int, in_windows: Seq<usize>) -> bool {
    index == e.current || (0 <= index < e.bufs.len() && (e.tabs.showing_index(
        e.bufs[index].id,
        0,
    ) is Some || in_windows.contains(index as usize)))
}

impl WriteStep {
    pub open spec fn model(self) -> Step {
        match self {
            WriteStep::Skip => Step::Skip,
            WriteStep::AskDisk(p) => Step::AskDisk(p@),
            WriteStep::Refuse(m) => Step::Refuse(m@),
            WriteStep::Write(p) => Step::Write(p@),
        }
    }
}

pub open spec fn changed_view(r: Result<bool, String>) -> Result<bool, Seq<char>> {
    match r {
        Ok(b) => Ok(b),
        Err(e) => Err(e@),
    }
}

/// What saving all buffers does with one of them.
pub open spec fn write_step_of(
    e: Ed,
    index: int,
    force: bool,
    exists_on_disk: bool,
    changed: Option<Result<bool, Seq<char>>>,
) -> Step {
    let b = e.bufs[index];
    if scratch_buffer(b, exists_on_disk) || !unsaved(e, index) {
        Step::Skip
    } else if b.path is None {
        Step::Refuse("E141: No file name for buffer "@ + digits((index + 1) as nat))
    } else if b.read_only && !force {
        Step::Refuse("E45: 'readonly' option is set (add ! to override): "@ + b.path->0)
    } else if force || b.mtime is None {
        Step::Write(b.path->0)
    } else {
        match changed {
            None => Step::AskDisk(b.path->0),
            Some(Ok(true)) => Step::Refuse(
                "E211: File changed since editing started (add ! to override): "@ + b.path->0,
            ),
            Some(Ok(false)) => Step::Write(b.path->0),
            Some(Err(error)) => Step::Refuse(
                "Failed to check "@ + b.path->0 + " before saving: "@ + error,
            ),
        }
    }
}

/// The editor after the first `k` buffers were saved, how many were written,
/// and why the others could not be.
pub open spec fn all_written(e: Ed, disk: Seq<DiskAnswer>, k: int, force: bool) -> (
    Ed,
    int,
    Seq<Seq<char>>,
)
    decreases k,
{
    if k <= 0 || k > disk.len() {
        (e, 0, Seq::empty())
    } else {
        let (f, written, errors) = all_written(e, disk, k - 1, force);
        let a = disk[k - 1];
        match write_step_of(f, k - 1, force, a.exists, Some(changed_view(a.changed))) {
            Step::Write(path) => match a.saved {
                Ok(mtime) => (saved(f, k - 1, mtime), written + 1, errors),
                Err(error) => (f, written, errors.push("Failed to save "@ + path + ": "@ + error@)),
            },
            Step::Refuse(message) => (f, written, errors.push(message)),
            _ => (f, written, errors),
        }
    }
}

/// A buffer was written to its file.
pub open spec fn saved(e: Ed, index: int, mtime: Option<u64>) -> Ed {
    let b = e.bufs[index];
    Ed {
        bufs: e.bufs.update(
            index,
            Buf {
                mtime,
                modified: false,
                saved_changes: recorded_for(e.undo, e.undo.len() as int, b.id) as usize,
                ..b
            },
        ),
        lsp: if b.path is Some {
            Lsp {
                sync: e.lsp.sync.insert(
                    b.path->0,
                    Sync {
                        saved: true,
                        ..crate::editor::lsp_state::sync_at(e.lsp.sync, b.path->0)
                    },
                ),
                ..e.lsp
            }
        } else {
            e.lsp
        },
        ..e
    }
}

/// A hidden buffer may be written: it has a file that is not known to have
/// changed under it, and is not read-only.
pub open spec fn may_write_through(e: Ed, index: int, changed: Option<bool>) -> bool {
    0 <= index < e.bufs.len() && e.bufs[index].path is Some && !e.bufs[index].read_only && (
    e.bufs[index].mtime is None || changed == Some(false))
}

/// The first `k` characters with their line feeds as a file ends its lines.
pub open spec fn with_endings(t: Seq<char>, k: int, ending: LineEnding) -> Seq<char>
    decreases k,
{
    if k <= 0 || k > t.len() {
        Seq::empty()
    } else {
        with_endings(t, k - 1, ending) + if t[k - 1] != '\n' {
            seq![t[k - 1]]
        } else {
            match ending {
                LineEnding::Lf | LineEnding::Mixed => seq!['\n'],
                LineEnding::Crlf => seq!['\r', '\n'],
                LineEnding::Cr => seq!['\r'],
            }
        }
    }
}

proof fn feeds_of_prefix(t: Seq<char>, u: Seq<char>, k: int)
    requires
        0 <= k <= t.len(),
        k <= u.len(),
        forall|i: int| 0 <= i < k ==> t[i] == u[i],
    ensures
        line_feeds(t, k) == line_feeds(u, k),
    decreases k,
{
    if k > 0 {
        feeds_of_prefix(t, u, k - 1);
    }
}

proof fn endings_come_back(t: Seq<char>, k: int, ending: LineEnding)
    requires
        0 <= k <= t.len(),
        forall|i: int| 0 <= i < t.len() ==> t[i] != '\r',
    ensures
        line_feeds(with_endings(t, k, ending), with_endings(t, k, ending).len() as int) == t.take(k),
        ending is Lf || ending is Mixed ==> with_endings(t, k, ending) == t.take(k),
    decreases k,
{
    if k > 0 {
        endings_come_back(t, k - 1, ending);
        let before = with_endings(t, k - 1, ending);
        let after = with_endings(t, k, ending);
        let n = before.len() as int;
        feeds_of_prefix(before, after, n);
        assert(t.take(k) =~= t.take(k - 1).push(t[k - 1]));
        if t[k - 1] == '\n' && ending is Crlf {
            assert(after[n] == '\r' && after[n + 1] == '\n');
            assert(line_feeds(after, n + 1) == line_feeds(after, n).push('\n'));
            assert(line_feeds(after, n + 2) == line_feeds(after, n + 1));
        } else if t[k - 1] == '\n' && ending is Cr {
            assert(after[n] == '\r');
            assert(line_feeds(after, n + 1) == line_feeds(after, n).push('\n'));
        } else {
            assert(after[n] == t[k - 1]);
            if n > 0 && t[k - 1] == '\n' {
                assert(before[n - 1] == t.take(k - 1)[n - 1]);
                assert(after[n - 1] == before[n - 1]);
            }
            assert(line_feeds(after, n + 1) == line_feeds(after, n).push(t[k - 1]));
            assert(after =~= before.push(t[k - 1]));
        }
    } else {
        assert(t.take(0) =~= Seq::empty());
    }
}

/// What a buffer writes to its file, with whatever line ends the file has, is
/// the buffer's text again once it is read.
pub proof fn saved_text_reads_back(t: Seq<char>, ending: LineEnding)
    requires
        forall|i: int| 0 <= i < t.len() ==> t[i] != '\r',
    ensures
        ({
            let written = with_endings(t, t.len() as int, ending);
            line_feeds(written, written.len() as int) == t
        }),
{
    endings_come_back(t, t.len() as int, ending);
    assert(t.take(t.len() as int) =~= t);
}

/// A language as a catalogue has it.
#[derive(Debug)]
pub struct CatalogLanguage {
    pub id: String,
    /// The name that servers know it by
    pub lsp_id: String,
}

impl<B: ClipboardBackend> Editor<B> {
    /// The name that servers know the language of a file by, given what the
    /// catalogue and the table of built-in languages say of its path. A language
    /// for which the catalogue has no name of its own goes by the built-in one.
    pub fn language_id_for_path(
        &self,
        detected: Option<&CatalogLanguage>,
        built_in: Option<&str>,
    ) -> (res: Option<String>)
        ensures
            crate::fmt::opt_view(res) == match (detected, built_in) {
                (Some(l), Some(name)) if l.lsp_id@ == l.id@ => Some(name@),
                (Some(l), _) => Some(l.lsp_id@),
                (None, Some(name)) => Some(name@),
                (None, None) => None,
            },
    {
        match detected {
            Some(language) => {
                if crate::text::same_text(language.lsp_id.as_str(), language.id.as_str()) {
                    if let Some(name) = built_in {
                        return Some(name.to_owned());
                    }
                }
                Some(language.lsp_id.clone())
            },
            None => match built_in {
                Some(name) => Some(name.to_owned()),
                None => None,
            },
        }
    }
}

/// What a buffer writes to its file.
pub fn file_content(b: &Buffer) -> (out: String)
    ensures
        out@ == with_endings(b.text(), b.text().len() as int, b.model().ending),
{
    let n: usize = b.len_chars();
    let ending = b.line_ending();
    let mut out = String::new();
    let mut k: usize = 0;
    while k < n
        invariant
            k <= n == b.text().len(),
            ending == b.model().ending,
            out@ == with_endings(b.text(), k as int, ending),
        decreases n - k,
    {
        let c = b.char_at(k);
        let ghost before = out@;
        if c != '\n' {
            out.push(c);
        } else {
            match ending {
                LineEnding::Lf | LineEnding::Mixed => {
                    out.push('\n');
                },
                LineEnding::Crlf => {
                    out.push('\r');
                    out.push('\n');
                },
                LineEnding::Cr => {
                    out.push('\r');
                },
            }
        }
        k += 1;
        proof {
            assert(out@ =~= with_endings(b.text(), k as int, ending));
        }
    }
    out
}

/// Each buffer keeps an id of its own, whatever is added or deleted.
pub proof fn ids_stay_distinct(e: Ed, b: Buf, index: int)
    requires
        e.wf(),
        e.next_id <= usize::MAX,
        e.ids_are_distinct(),
    ensures
        e.with_buffer(b).ids_are_distinct(),
        e.switched_to(index).ids_are_distinct(),
        e.bufs.len() > 1 ==> deleted(e).ids_are_distinct(),
{
}

/// A buffer is found by its id at the index where it stands.
pub proof fn found_by_id(e: Ed, i: int, k: int)
    requires
        e.ids_are_distinct(),
        0 <= k <= i < e.bufs.len(),
    ensures
        e.index_by_id(e.bufs[i].id, k) == Some(i),
    decreases i - k,
{
    if k < i {
        assert(e.bufs[k].id != e.bufs[i].id);
        found_by_id(e, i, k + 1);
    }
}

/// Showing the next buffer and then the previous one shows the first again,
/// with each buffer as it was.
pub proof fn next_then_prev(e: Ed)
    requires
        e.wf(),
        e.bufs.len() > 1,
    ensures
        ({
            let f = cycled(e, next_index(e));
            &&& cycled(f, prev_index(f)).current == e.current
            &&& cycled(f, prev_index(f)).bufs == e.bufs
        }),
        ({
            let f = cycled(e, prev_index(e));
            &&& cycled(f, next_index(f)).current == e.current
            &&& cycled(f, next_index(f)).bufs == e.bufs
        }),
{
}

/// Scratch buffers never reach the file registers: leaving or entering one
/// keeps what stands there.
pub proof fn scratch_keeps_file_registers(
    r: Registers,
    left: Option<Seq<char>>,
    entered: Option<Seq<char>>,
)
    requires
        left is Some && scratch_path(left->0),
        entered is Some && scratch_path(entered->0),
    ensures
        files_switched(r, left, entered) == r,
        forall|p: Option<Seq<char>>|
            (#[trigger] files_switched(r, left, p)).alternate_file == r.alternate_file,
        forall|p: Option<Seq<char>>|
            (#[trigger] files_switched(r, p, entered)).current_file == r.current_file,
{
}

} // verus!
