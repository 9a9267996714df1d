//! Tab pages and the buffers that they show.
use vstd::prelude::*;

verus! {

/// A tab page. It knows its buffer by an id that does not change, so that
/// other buffers can come and go.
#[derive(Debug, Clone, Copy, PartialEq, Eq, Structural)]
pub struct TabPage {
    pub id: usize,
    pub buffer_id: Option<usize>,
    /// The tab that a jump to a definition opened this one from.
    pub definition_origin: Option<usize>,
}

/// The tab pages and the one that is shown.
#[derive(Debug)]
pub struct TabPageManager {
    pub tabs: Vec<TabPage>,
    pub current: usize,
    pub next_id: usize,
}

/// A model of the tab pages.
pub ghost struct Tabs {
    pub list: Seq<TabPage>,
    pub current: int,
    pub next_id: int,
}

impl Tabs {
    /// There is a current tab.
    pub open spec fn wf(self) -> bool {
        0 <= self.current < self.list.len()
    }

    pub open spec fn cur(self) -> TabPage {
        self.list[self.current]
    }

    /// Another tab is shown, where there is one of that index.
    pub open spec fn switched(self, index: int) -> Tabs {
        if 0 <= index < self.list.len() {
            Tabs { current: index, ..self }
        } else {
            self
        }
    }

    pub open spec fn next(self) -> int {
        if self.current + 1 < self.list.len() {
            self.current + 1
        } else {
            0
        }
    }

    pub open spec fn previous(self) -> int {
        if self.current > 0 {
            self.current - 1
        } else {
            self.list.len() - 1
        }
    }

    /// A new tab behind the current one, which is then shown.
    pub open spec fn opened(self) -> Tabs {
        Tabs {
            list: self.list.insert(
                self.current + 1,
                TabPage { id: self.next_id as usize, buffer_id: None, definition_origin: None },
            ),
            current: self.current + 1,
            next_id: self.next_id + 1,
        }
    }

    /// The current tab is gone; the only tab stays.
    pub open spec fn closed_current(self) -> Tabs {
        if self.list.len() <= 1 {
            self
        } else {
            let list = self.list.remove(self.current);
            Tabs {
                list,
                current: if self.current < list.len() {
                    self.current
                } else {
                    list.len() - 1
                },
                ..self
            }
        }
    }

    /// Only the current tab is left.
    pub open spec fn closed_others(self) -> Tabs {
        Tabs { list: seq![self.cur()], current: 0, ..self }
    }

    /// The current tab shows a buffer.
    pub open spec fn showing(self, buffer_id: usize) -> Tabs {
        Tabs {
            list: self.list.update(
                self.current,
                TabPage { buffer_id: Some(buffer_id), ..self.cur() },
            ),
            ..self
        }
    }

    /// No tab remembers where a jump came from.
    pub open spec fn without_origins(self) -> Tabs {
        Tabs {
            list: self.list.map_values(|t: TabPage| TabPage { definition_origin: None, ..t }),
            ..self
        }
    }

    /// The first tab, from the `k`th on, with an id.
    pub open spec fn index_of(self, id: usize, k: int) -> Option<int>
        decreases self.list.len() - k,
    {
        if k < 0 || k >= self.list.len() {
            None
        } else if self.list[k].id == id {
            Some(k)
        } else {
            self.index_of(id, k + 1)
        }
    }

    /// The first tab, from the `k`th on, that shows a buffer.
    pub open spec fn showing_index(self, buffer_id: usize, k: int) -> Option<int>
        decreases self.list.len() - k,
    {
        if k < 0 || k >= self.list.len() {
            None
        } else if self.list[k].buffer_id == Some(buffer_id) {
            Some(k)
        } else {
            self.showing_index(buffer_id, k + 1)
        }
    }
}

impl TabPageManager {
    pub open spec fn model(self) -> Tabs {
        Tabs { list: self.tabs@, current: self.current as int, next_id: self.next_id as int }
    }

    /// One tab that shows a buffer.
    pub fn new(buffer_id: usize) -> (t: TabPageManager)
        ensures
            t.model() == (Tabs {
                list: seq![TabPage { id: 0, buffer_id: Some(buffer_id), definition_origin: None }],
                current: 0,
                next_id: 1,
            }),
    {
        let mut tabs: Vec<TabPage> = Vec::new();
        tabs.push(TabPage { id: 0, buffer_id: Some(buffer_id), definition_origin: None });
        let t = TabPageManager { tabs, current: 0, next_id: 1 };
        proof {
            assert(t.model().list =~= seq![
                TabPage { id: 0, buffer_id: Some(buffer_id), definition_origin: None },
            ]);
        }
        t
    }

    /// Opens a tab behind the current one.
    pub fn new_tab(&mut self)
        requires
            old(self).model().wf(),
            old(self).next_id < usize::MAX,
        ensures
            final(self).model() == old(self).model().opened(),
    {
        let tab = TabPage { id: self.next_id, buffer_id: None, definition_origin: None };
        let count: usize = self.tabs.len();
        self.current = if self.current < count {
            self.current + 1
        } else {
            count
        };
        self.tabs.insert(self.current, tab);
        self.next_id += 1;
    }

    pub fn set_buffer_id(&mut self, buffer_id: usize)
        requires
            old(self).model().wf(),
        ensures
            final(self).model() == old(self).model().showing(buffer_id),
    {
        let mut tab = self.tabs[self.current];
        tab.buffer_id = Some(buffer_id);
        self.tabs[self.current] = tab;
    }

    pub fn switch_to_tab(&mut self, index: usize)
        ensures
            final(self).model() == old(self).model().switched(index as int),
    {
        if index < self.tabs.len() {
            self.current = index;
        }
    }

    pub fn close_current_tab(&mut self)
        requires
            old(self).model().wf(),
        ensures
            final(self).model() == old(self).model().closed_current(),
    {
        if self.tabs.len() <= 1 {
            return;
        }
        let _ = self.tabs.remove(self.current);
        if self.current >= self.tabs.len() {
            self.current = self.tabs.len() - 1;
        }
    }

    pub fn close_other_tabs(&mut self)
        requires
            old(self).model().wf(),
        ensures
            final(self).model() == old(self).model().closed_others(),
    {
        let tab = self.tabs[self.current];
        let mut tabs: Vec<TabPage> = Vec::new();
        tabs.push(tab);
        self.tabs = tabs;
        self.current = 0;
        proof {
            assert(self.model().list =~= old(self).model().closed_others().list);
        }
    }

    pub fn clear_origins(&mut self)
        ensures
            final(self).model() == old(self).model().without_origins(),
    {
        let mut k: usize = 0;
        let ghost all = self.tabs@;
        while k < self.tabs.len()
            invariant
                k <= self.tabs.len() == all.len(),
                self.current == old(self).current,
                self.next_id == old(self).next_id,
                forall|i: int|
                    0 <= i < k ==> self.tabs@[i] == (TabPage { definition_origin: None, ..all[i] }),
                forall|i: int| k <= i < all.len() ==> self.tabs@[i] == all[i],
            decreases self.tabs.len() - k,
        {
            let mut tab = self.tabs[k];
            tab.definition_origin = None;
            self.tabs[k] = tab;
            k += 1;
        }
        proof {
            assert(self.model().list =~= old(self).model().without_origins().list);
        }
    }

    /// The first tab with an id.
    pub fn position(&self, id: usize) -> (res: Option<usize>)
        ensures
            match res {
                Some(k) => self.model().index_of(id, 0) == Some(k as int) && k < self.tabs.len(),
                None => self.model().index_of(id, 0) is None,
            },
    {
        let mut k: usize = 0;
        while k < self.tabs.len()
            invariant
                k <= self.tabs.len(),
                self.model().index_of(id, k as int) == self.model().index_of(id, 0),
            decreases self.tabs.len() - k,
        {
            if self.tabs[k].id == id {
                return Some(k);
            }
            k += 1;
        }
        None
    }

    /// The first tab that shows a buffer.
    pub fn position_showing(&self, buffer_id: usize) -> (res: Option<usize>)
        ensures
            match res {
                Some(k) => self.model().showing_index(buffer_id, 0) == Some(k as int) && k
                    < self.tabs.len(),
                None => self.model().showing_index(buffer_id, 0) is None,
            },
    {
        let mut k: usize = 0;
        while k < self.tabs.len()
            invariant
                k <= self.tabs.len(),
                self.model().showing_index(buffer_id, k as int) == self.model().showing_index(
                    buffer_id,
                    0,
                ),
            decreases self.tabs.len() - k,
        {
            if let Some(id) = self.tabs[k].buffer_id {
                if id == buffer_id {
                    return Some(k);
                }
            }
            k += 1;
        }
        None
    }
}

/// Every operation leaves a current tab.
pub proof fn tabs_keep_a_current(t: Tabs, index: int, buffer_id: usize)
    requires
        t.wf(),
    ensures
        t.switched(index).wf(),
        t.opened().wf(),
        t.closed_current().wf(),
        t.closed_others().wf(),
        t.showing(buffer_id).wf(),
        t.without_origins().wf(),
        t.switched(t.next()).wf(),
        t.switched(t.previous()).wf(),
{
}

/// Going to the next tab and back is going nowhere.
pub proof fn next_then_previous(t: Tabs)
    requires
        t.wf(),
    ensures
        t.switched(t.next()).switched(t.switched(t.next()).previous()) == t,
        t.switched(t.previous()).switched(t.switched(t.previous()).next()) == t,
{
}

/// Opening a tab and closing it shows the tabs that were there before.
pub proof fn open_then_close(t: Tabs)
    requires
        t.wf(),
    ensures
        t.opened().closed_current().list == t.list,
{
    assert(t.opened().closed_current().list =~= t.list);
}

} // verus!
