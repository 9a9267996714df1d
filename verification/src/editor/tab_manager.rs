//! Tab pages of the editor.
//!
//! A tab knows its buffer by id and takes its title from that buffer when it
//! is asked for, so switching and deleting buffers leaves no tab with another
//! buffer or an old title.
use crate::buffer::{Buf, Buffer};
use crate::editor::buffer_manager::{files_move, found_by_id, is_reading_copy, is_scratch, scratch};
use crate::editor::clipboard::ClipboardBackend;
use crate::editor::lsp_state::Lsp;
use crate::editor::register::RegisterManager;
use crate::editor::tab_pages::TabPageManager;
use crate::editor::ui_panels::Ui;
use crate::editor::{Ed, Editor};
use crate::syntax::{last_component, path_name};
use vstd::prelude::*;

verus! {

impl Ed {
    /// The current tab shows the current buffer.
    pub open spec fn tab_synced(self) -> Ed {
        Ed { tabs: self.tabs.showing(self.cur().id), ..self }
    }

    /// The index of the buffer that the current tab shows, if it is still there.
    pub open spec fn tab_target(self) -> Option<int> {
        match self.tabs.cur().buffer_id {
            Some(id) => self.index_by_id(id, 0),
            None => None,
        }
    }

    /// The buffer of the current tab is shown; a tab whose buffer is gone
    /// takes the current one.
    pub open spec fn tab_restored(self) -> Ed {
        match self.tab_target() {
            Some(k) => self.switched_to(k),
            None => self.tab_synced(),
        }
    }

    /// The current tab is left for another; where that moves, no tab
    /// remembers where a jump came from.
    pub open spec fn tab_left_for(self, index: int) -> Ed {
        let e = self.tab_synced();
        let tabs = e.tabs.switched(index);
        Ed {
            tabs: if tabs.current != e.tabs.current {
                tabs.without_origins()
            } else {
                tabs
            },
            ..e
        }
    }

    /// Another tab is shown with its buffer.
    pub open spec fn tab_shown(self, index: int) -> Ed {
        self.tab_left_for(index).tab_restored()
    }

    /// The current tab is closed: the tab that a jump came from is shown, or
    /// else the next one.
    pub open spec fn tab_dropped(self) -> Ed {
        let e = self.tab_synced();
        let tabs = e.tabs.closed_current();
        let back = match e.tabs.cur().definition_origin {
            Some(origin) => tabs.index_of(origin, 0),
            None => None,
        };
        Ed {
            tabs: match back {
                Some(k) => tabs.switched(k),
                None => tabs,
            },
            ..e
        }
    }

    pub open spec fn tab_closed(self) -> Ed {
        let e = self.tab_dropped().tab_restored();
        Ed { ui: Ui { dirty: true, ..e.ui }, ..e }
    }

    /// A buffer is shown in a tab of its own behind the current one.
    pub open spec fn in_new_tab(self, b: Buf, needs_init: bool) -> Ed {
        let e = self.tab_synced();
        let f = Ed {
            tabs: e.tabs.opened().showing(e.next_id as usize),
            current: e.bufs.len() as int,
            ..e.with_buffer(b)
        }.without_lsp_ui();
        Ed { lsp: Lsp { needs_init, ..f.lsp }, ..f }
    }

    /// A buffer to be read is shown in a tab of its own.
    pub open spec fn reading_in_new_tab(self, b: Buf) -> Ed {
        let e = Ed { tabs: self.tabs.without_origins(), ..self }.in_new_tab(b, false);
        Ed { ui: Ui { dirty: true, ..e.ui }, ..e }
    }
}

/// The file registers after the buffer of the current tab was shown.
pub open spec fn restored_files<B: ClipboardBackend>(
    before: RegisterManager<B>,
    after: RegisterManager<B>,
    e: Ed,
) -> bool {
    match e.tab_target() {
        Some(k) if k != e.current => files_move(before, after, e.cur().path, e.bufs[k].path),
        _ => after == before,
    }
}

/// A new empty buffer.
pub open spec fn is_blank(b: Buf) -> bool {
    is_reading_copy(Buf { read_only: true, ..b }) && !b.read_only && b.text.len() == 0
        && b.path is None && b.name is None
}

/// A new buffer that shows a text under a title, without a path.
pub open spec fn is_diff_buffer(b: Buf, title: Seq<char>, content: Seq<char>) -> bool {
    is_reading_copy(b) && b.text == content && b.path is None && b.name == Some(title)
}

/// The title of a tab that shows a buffer: the name of the buffer's file.
pub open spec fn title_of(b: Option<Buf>) -> Seq<char> {
    let named = match b {
        Some(b) => match b.path {
            Some(path) => last_component(path, path.len() as int),
            None => None,
        },
        None => None,
    };
    match named {
        Some(name) => name,
        None => "[No Name]"@,
    }
}

/// The buffer that a tab shows. The current tab shows the current buffer.
pub open spec fn tab_buffer(e: Ed, index: int) -> Option<Buf> {
    if index == e.tabs.current {
        Some(e.cur())
    } else if 0 <= index < e.tabs.list.len() && e.tabs.list[index].buffer_id is Some {
        match e.index_by_id(e.tabs.list[index].buffer_id->0, 0) {
            Some(k) => Some(e.bufs[k]),
            None => None,
        }
    } else {
        None
    }
}

fn title_for(b: &Buffer) -> (s: String)
    ensures
        s@ == title_of(Some(b.model())),
{
    if let Some(path) = b.file_path() {
        if let Some(name) = path_name(path) {
            return name;
        }
    }
    "[No Name]".to_owned()
}

impl<B: ClipboardBackend> Editor<B> {
    pub fn tab_page_manager(&self) -> (t: &TabPageManager)
        ensures
            t.model() == self.model().tabs,
    {
        &self.tabs
    }

    pub fn tab_page_manager_mut(&mut self) -> (t: &mut TabPageManager)
        ensures
            t.model() == old(self).model().tabs,
            final(self).model() == (Ed { tabs: final(t).model(), ..old(self).model() }),
            final(self).registers == old(self).registers,
            final(self).options == old(self).options,
    {
        &mut self.tabs
    }

    fn show_in_new_tab(&mut self, buffer: Buffer, needs_init: bool)
        requires
            old(self).wf(),
            old(self).next_id < usize::MAX,
            old(self).tabs.next_id < usize::MAX,
        ensures
            final(self).wf(),
            final(self).registers == old(self).registers,
            final(self).model() == old(self).model().in_new_tab(buffer.model(), needs_init),
    {
        self.sync_current_tab_buffer();
        let id: usize = self.next_id;
        let index: usize = self.push_buffer(buffer);
        self.tabs.new_tab();
        self.tabs.set_buffer_id(id);
        self.current = index;
        self.clear_lsp_state();
        self.lsp.needs_lsp_init = needs_init;
    }

    /// Opens a tab with an empty buffer and shows it.
    pub fn new_tab(&mut self)
        requires
            old(self).wf(),
            old(self).next_id < usize::MAX,
            old(self).tabs.next_id < usize::MAX,
        ensures
            final(self).wf(),
            final(self).registers == old(self).registers,
            exists|b: Buf| #[trigger]
                is_blank(b) && final(self).model() == (Ed {
                    tabs: old(self).model().tabs.without_origins(),
                    ..old(self).model()
                }).in_new_tab(b, true),
    {
        self.clear_definition_returns();
        self.new_tab_for_definition();
    }

    /// Opens a tab with an empty buffer and shows it; tabs still remember
    /// where a jump came from.
    pub fn new_tab_for_definition(&mut self)
        requires
            old(self).wf(),
            old(self).next_id < usize::MAX,
            old(self).tabs.next_id < usize::MAX,
        ensures
            final(self).wf(),
            final(self).registers == old(self).registers,
            exists|b: Buf| #[trigger]
                is_blank(b) && final(self).model() == old(self).model().in_new_tab(b, true),
    {
        let buffer = Buffer::new_from_str("");
        proof {
            reveal_strlit("");
            assert(is_blank(buffer.model()));
        }
        self.show_in_new_tab(buffer, true);
    }

    /// Shows a text in a scratch buffer in a new tab.
    pub fn open_scratch_buffer_in_new_tab(&mut self, title: &str, content: &str)
        requires
            old(self).wf(),
            old(self).next_id < usize::MAX,
            old(self).tabs.next_id < usize::MAX,
        ensures
            final(self).wf(),
            final(self).registers == old(self).registers,
            exists|b: Buf| #[trigger]
                is_scratch(b, title@, content@) && final(self).model()
                    == old(self).model().reading_in_new_tab(b),
    {
        self.clear_definition_returns();
        let buffer = scratch(title, content);
        proof {
            assert(is_scratch(buffer.model(), title@, content@));
        }
        self.show_in_new_tab(buffer, false);
        self.mark_dirty();
    }

    /// Shows a text in a buffer without a path in a new tab.
    pub fn open_diff_buffer_in_new_tab(&mut self, title: &str, content: &str)
        requires
            old(self).wf(),
            old(self).next_id < usize::MAX,
            old(self).tabs.next_id < usize::MAX,
        ensures
            final(self).wf(),
            final(self).registers == old(self).registers,
            exists|b: Buf| #[trigger]
                is_diff_buffer(b, title@, content@) && final(self).model()
                    == old(self).model().reading_in_new_tab(b),
    {
        self.clear_definition_returns();
        let mut buffer = Buffer::new_from_str(content);
        buffer.set_read_only(true);
        buffer.set_display_name(title.to_owned());
        proof {
            assert(is_diff_buffer(buffer.model(), title@, content@));
        }
        self.show_in_new_tab(buffer, false);
        self.mark_dirty();
    }

    /// The title of a tab.
    pub fn get_tab_title(&self, tab_index: usize) -> (s: String)
        requires
            self.model().wf(),
        ensures
            s@ == title_of(tab_buffer(self.model(), tab_index as int)),
    {
        if tab_index == self.tabs.current {
            return title_for(self.buffer());
        }
        if tab_index < self.tabs.tabs.len() {
            if let Some(id) = self.tabs.tabs[tab_index].buffer_id {
                if let Some(b) = self.get_buffer_by_id(id) {
                    return title_for(b);
                }
            }
        }
        "[No Name]".to_owned()
    }

    /// Lets the current tab show the current buffer.
    pub fn sync_current_tab_buffer(&mut self)
        requires
            old(self).wf(),
        ensures
            final(self).wf(),
            final(self).model() == old(self).model().tab_synced(),
            final(self).registers == old(self).registers,
            final(self).options == old(self).options,
    {
        let id: usize = self.buffer().id();
        self.tabs.set_buffer_id(id);
    }

    fn restore_current_tab_buffer(&mut self)
        requires
            old(self).wf(),
        ensures
            final(self).wf(),
            final(self).model() == old(self).model().tab_restored(),
            restored_files(old(self).registers, final(self).registers, old(self).model()),
    {
        let target = match self.tabs.tabs[self.tabs.current].buffer_id {
            Some(id) => self.find_buffer_index_by_id(id),
            None => None,
        };
        match target {
            Some(index) => self.switch_to_buffer(index),
            None => self.sync_current_tab_buffer(),
        }
    }

    fn clear_definition_returns(&mut self)
        requires
            old(self).wf(),
        ensures
            final(self).wf(),
            final(self).model() == (Ed {
                tabs: old(self).model().tabs.without_origins(),
                ..old(self).model()
            }),
            final(self).registers == old(self).registers,
            final(self).next_id == old(self).next_id,
            final(self).tabs.next_id == old(self).tabs.next_id,
    {
        self.tabs.clear_origins();
    }

    /// Closes the current tab; the only tab stays.
    pub fn close_current_tab(&mut self)
        requires
            old(self).wf(),
        ensures
            final(self).wf(),
            final(self).model() == old(self).model().tab_closed(),
            restored_files(
                old(self).registers,
                final(self).registers,
                old(self).model().tab_dropped(),
            ),
    {
        self.sync_current_tab_buffer();
        let origin = self.tabs.tabs[self.tabs.current].definition_origin;
        self.tabs.close_current_tab();
        if let Some(origin) = origin {
            if let Some(index) = self.tabs.position(origin) {
                self.tabs.switch_to_tab(index);
            }
        }
        self.restore_current_tab_buffer();
        self.mark_dirty();
    }

    /// Shows a tab; nothing where there is none of that index.
    pub fn goto_tab(&mut self, index: usize)
        requires
            old(self).wf(),
        ensures
            final(self).wf(),
            final(self).model() == old(self).model().tab_shown(index as int),
            restored_files(
                old(self).registers,
                final(self).registers,
                old(self).model().tab_left_for(index as int),
            ),
    {
        self.sync_current_tab_buffer();
        let previous: usize = self.tabs.current;
        self.tabs.switch_to_tab(index);
        if previous != self.tabs.current {
            self.clear_definition_returns();
        }
        self.restore_current_tab_buffer();
    }

    /// Shows the next tab, the first behind the last.
    pub fn next_tab(&mut self)
        requires
            old(self).wf(),
        ensures
            final(self).wf(),
            ({
                let e = old(self).model();
                &&& final(self).model() == e.tab_shown(e.tabs.next())
                &&& restored_files(
                    old(self).registers,
                    final(self).registers,
                    e.tab_left_for(e.tabs.next()),
                )
            }),
    {
        let count: usize = self.tabs.tabs.len();
        let next: usize = if self.tabs.current + 1 < count {
            self.tabs.current + 1
        } else {
            0
        };
        self.goto_tab(next);
    }

    /// Shows the previous tab, the last before the first.
    pub fn previous_tab(&mut self)
        requires
            old(self).wf(),
        ensures
            final(self).wf(),
            ({
                let e = old(self).model();
                &&& final(self).model() == e.tab_shown(e.tabs.previous())
                &&& restored_files(
                    old(self).registers,
                    final(self).registers,
                    e.tab_left_for(e.tabs.previous()),
                )
            }),
    {
        let count: usize = self.tabs.tabs.len();
        let previous: usize = if self.tabs.current > 0 {
            self.tabs.current - 1
        } else {
            count - 1
        };
        self.goto_tab(previous);
    }

    /// Shows the first tab.
    pub fn first_tab(&mut self)
        requires
            old(self).wf(),
        ensures
            final(self).wf(),
            final(self).model() == old(self).model().tab_shown(0),
            restored_files(
                old(self).registers,
                final(self).registers,
                old(self).model().tab_left_for(0),
            ),
    {
        self.goto_tab(0);
    }

    /// Shows the last tab.
    pub fn last_tab(&mut self)
        requires
            old(self).wf(),
        ensures
            final(self).wf(),
            ({
                let e = old(self).model();
                &&& final(self).model() == e.tab_shown(e.tabs.list.len() - 1)
                &&& restored_files(
                    old(self).registers,
                    final(self).registers,
                    e.tab_left_for(e.tabs.list.len() - 1),
                )
            }),
    {
        let last: usize = self.tabs.tabs.len() - 1;
        self.goto_tab(last);
    }

    pub fn current_tab_index(&self) -> (n: usize)
        ensures
            n == self.model().tabs.current,
    {
        self.tabs.current
    }

    pub fn tab_count(&self) -> (n: usize)
        ensures
            n == self.model().tabs.list.len(),
    {
        self.tabs.tabs.len()
    }

    /// Closes all tabs but the current one.
    pub fn close_other_tabs(&mut self)
        requires
            old(self).wf(),
        ensures
            final(self).wf(),
            final(self).model() == (Ed {
                tabs: old(self).model().tabs.closed_others(),
                ..old(self).model()
            }),
            final(self).registers == old(self).registers,
    {
        self.tabs.close_other_tabs();
    }
}

/// Leaving a tab and coming back shows its buffer again, and no buffer changed.
pub proof fn tab_comes_back(e: Ed, index: int)
    requires
        e.wf(),
        e.ids_are_distinct(),
        0 <= index < e.tabs.list.len(),
    ensures
        ({
            let f = e.tab_shown(index);
            let g = f.tab_shown(e.tabs.current);
            &&& f.tabs.current == index
            &&& g.tabs.current == e.tabs.current
            &&& g.current == e.current
            &&& g.bufs == e.bufs
        }),
{
    let a = e.tab_left_for(index);
    let f = e.tab_shown(index);
    found_by_id(e, e.current, 0);
    index_only_reads_bufs(a, e, e.cur().id, 0);
    if index == e.tabs.current {
        assert(a.tabs.cur().buffer_id == Some(e.cur().id));
        assert(f.current == e.current);
        let b = f.tab_left_for(e.tabs.current);
        index_only_reads_bufs(b, e, e.cur().id, 0);
        index_only_reads_bufs(f, e, e.cur().id, 0);
        assert(b.tabs.cur().buffer_id == Some(e.cur().id));
    } else {
        assert(a.tabs.current == index);
        assert(a.tabs.list[e.tabs.current].buffer_id == Some(e.cur().id));
        if a.tab_target() is Some {
            target_is_inside(a, a.tabs.cur().buffer_id->0, 0);
        }
        assert(f.tabs.list[e.tabs.current].buffer_id == Some(e.cur().id));
        let b = f.tab_left_for(e.tabs.current);
        assert(b.tabs.current == e.tabs.current);
        assert(b.tabs.cur().buffer_id == Some(e.cur().id));
        index_only_reads_bufs(b, e, e.cur().id, 0);
        assert(b.tab_target() == Some(e.current));
    }
}

pub(crate) proof fn index_only_reads_bufs(a: Ed, b: Ed, id: usize, k: int)
    requires
        a.bufs == b.bufs,
        0 <= k <= a.bufs.len(),
    ensures
        a.index_by_id(id, k) == b.index_by_id(id, k),
    decreases a.bufs.len() - k,
{
    if k < a.bufs.len() {
        index_only_reads_bufs(a, b, id, k + 1);
    }
}

pub(crate) proof fn target_is_inside(e: Ed, id: usize, k: int)
    requires
        0 <= k <= e.bufs.len(),
        e.index_by_id(id, k) is Some,
    ensures
        k <= e.index_by_id(id, k)->0 < e.bufs.len(),
        e.bufs[e.index_by_id(id, k)->0].id == id,
    decreases e.bufs.len() - k,
{
    if k < e.bufs.len() && e.bufs[k].id != id {
        target_is_inside(e, id, k + 1);
    }
}

/// Deleting a buffer leaves every tab that shows another one with its buffer.
pub proof fn deleting_keeps_other_tabs(e: Ed, index: int)
    requires
        e.wf(),
        e.ids_are_distinct(),
        e.bufs.len() > 1,
        0 <= index < e.tabs.list.len(),
        index != e.tabs.current,
        tab_buffer(e, index) is Some,
        (tab_buffer(e, index)->0).id != e.cur().id,
    ensures
        tab_buffer(crate::editor::buffer_manager::deleted(e), index) == tab_buffer(e, index),
{
    let f = crate::editor::buffer_manager::deleted(e);
    assert(f.ids_are_distinct());
    let id = e.tabs.list[index].buffer_id->0;
    target_is_inside(e, id, 0);
    let k = e.index_by_id(id, 0)->0;
    let j = if k < e.current {
        k
    } else {
        k - 1
    };
    assert(k != e.current);
    assert(f.bufs[j] == e.bufs[k]);
    found_by_id(f, j, 0);
}

/// The current tab's title follows the buffer that is shown.
pub proof fn title_follows_buffer(e: Ed, k: int)
    requires
        e.wf(),
        0 <= k < e.bufs.len(),
    ensures
        tab_buffer(e.switched_to(k), e.tabs.current) == Some(e.bufs[k]),
{
}

} // verus!
