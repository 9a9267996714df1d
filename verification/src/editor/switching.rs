//! Which tab and which buffer is shown next, and what is saved.
use crate::editor::buffer_manager::{
    all_written, deleted, files_switched, may_write_through, next_index, open_in_ui, prev_index,
    recorded_for, saved, unsaved, write_step_of, DiskAnswer, Step,
};
use crate::editor::register::Registers;
use crate::editor::tab_pages::Tabs;
use crate::editor::{Ed, Recorded};
use crate::syntax::last_component;
use vstd::prelude::*;

verus! {

/// The next tab is the one behind the current one, and the first behind the
/// last; the previous one the other way round.
pub proof fn tabs_go_round(t: Tabs)
    requires
        t.wf(),
    ensures
        t.current < t.list.len() - 1 ==> t.next() == t.current + 1,
        t.current == t.list.len() - 1 ==> t.next() == 0,
        t.current > 0 ==> t.previous() == t.current - 1,
        t.current == 0 ==> t.previous() == t.list.len() - 1,
{
}

/// A new tab stands directly behind the current one and is shown; the others
/// keep their order.
pub proof fn new_tabs_follow_the_current(t: Tabs, i: int)
    requires
        t.wf(),
        0 <= i < t.list.len(),
        t.next_id <= usize::MAX,
        0 <= t.next_id,
    ensures
        ({
            let u = t.opened();
            &&& u.list.len() == t.list.len() + 1
            &&& u.current == t.current + 1
            &&& u.cur().id == t.next_id
            &&& u.cur().buffer_id is None
            &&& u.next_id == t.next_id + 1
            &&& i <= t.current ==> u.list[i] == t.list[i]
            &&& i > t.current ==> u.list[i + 1] == t.list[i]
        }),
{
}

/// A closed tab is gone and the others keep their order; the one behind it is
/// shown, and the last where there is none behind. The only tab stays.
pub proof fn closed_tabs_are_gone(t: Tabs, i: int)
    requires
        t.wf(),
        0 <= i < t.list.len(),
        t.list.len() > 1,
    ensures
        ({
            let u = t.closed_current();
            &&& u.list.len() == t.list.len() - 1
            &&& i < t.current ==> u.list[i] == t.list[i]
            &&& i > t.current ==> u.list[i - 1] == t.list[i]
            &&& t.current + 1 < t.list.len() ==> u.cur() == t.list[t.current + 1]
            &&& t.current + 1 == t.list.len() ==> u.cur() == t.list[t.current - 1]
        }),
        t.closed_others().list == seq![t.list[t.current]],
{
}

/// A tab is found by its id and by the buffer that it shows, the first of
/// several.
pub proof fn tabs_are_found(t: Tabs, id: usize, k: int)
    requires
        0 <= k <= t.list.len(),
    ensures
        match t.index_of(id, k) {
            Some(i) => k <= i < t.list.len() && t.list[i].id == id && forall|j: int|
                k <= j < i ==> (#[trigger] t.list[j]).id != id,
            None => forall|j: int| k <= j < t.list.len() ==> (#[trigger] t.list[j]).id != id,
        },
        match t.showing_index(id, k) {
            Some(i) => k <= i < t.list.len() && t.list[i].buffer_id == Some(id) && forall|j: int|
                k <= j < i ==> (#[trigger] t.list[j]).buffer_id != Some(id),
            None => forall|j: int|
                k <= j < t.list.len() ==> (#[trigger] t.list[j]).buffer_id != Some(id),
        },
    decreases t.list.len() - k,
{
    if k < t.list.len() {
        tabs_are_found(t, id, k + 1);
    }
}

/// Closing a tab that a jump opened shows the tab that the jump came from, where
/// it is still there.
pub proof fn closing_goes_back_to_the_origin(e: Ed, origin: usize)
    requires
        e.wf(),
        e.tabs.list.len() > 1,
        e.tabs.cur().definition_origin == Some(origin),
        e.tabs.closed_current().index_of(origin, 0) is Some,
    ensures
        e.tab_dropped().tabs.cur().id == origin,
{
    let s = e.tab_synced();
    let before = e.tabs.closed_current();
    let tabs = s.tabs.closed_current();
    assert(tabs.list =~= before.list);
    tabs_are_found(before, origin, 0);
    same_index(before, tabs, origin, 0);
}

proof fn same_index(a: Tabs, b: Tabs, id: usize, k: int)
    requires
        a.list == b.list,
        0 <= k,
    ensures
        a.index_of(id, k) == b.index_of(id, k),
    decreases a.list.len() - k,
{
    if k < a.list.len() {
        same_index(a, b, id, k + 1);
    }
}

/// The next buffer is the one behind the current one, and the first behind the
/// last; the previous one the other way round.
pub proof fn buffers_go_round(e: Ed)
    requires
        e.wf(),
    ensures
        e.current < e.bufs.len() - 1 ==> next_index(e) == e.current + 1,
        e.current == e.bufs.len() - 1 ==> next_index(e) == 0,
        e.current > 0 ==> prev_index(e) == e.current - 1,
        e.current == 0 ==> prev_index(e) == e.bufs.len() - 1,
{
}

/// A deleted buffer is gone, and the others keep their texts and their order;
/// the one behind it is shown, and the last where there is none behind.
pub proof fn deleted_buffers_are_gone(e: Ed, i: int)
    requires
        e.wf(),
        e.bufs.len() > 1,
        0 <= i < e.bufs.len(),
    ensures
        ({
            let f = deleted(e);
            &&& f.bufs.len() == e.bufs.len() - 1
            &&& i < e.current ==> f.bufs[i] == e.bufs[i]
            &&& i > e.current ==> f.bufs[i - 1] == e.bufs[i]
            &&& e.current + 1 < e.bufs.len() ==> f.cur() == e.bufs[e.current + 1]
            &&& e.current + 1 == e.bufs.len() ==> f.cur() == e.bufs[e.current - 1]
            &&& e.cur().path matches Some(path) ==> !f.lsp.sync.dom().contains(path)
        }),
{
}

/// A name in square brackets.
pub open spec fn in_brackets(path: Seq<char>) -> bool {
    match last_component(path, path.len() as int) {
        Some(name) => name.len() > 0 && name[0] == '[' && name.last() == ']',
        None => false,
    }
}

/// The file registers after another buffer is shown: the file that was left is
/// the alternate one, and the file that is entered the current one. Buffers
/// without a path, and those under a name in square brackets, are no files and
/// leave both registers.
pub proof fn file_registers_follow(
    r: Registers,
    left: Option<Seq<char>>,
    entered: Option<Seq<char>>,
)
    ensures
        ({
            let f = files_switched(r, left, entered);
            &&& f.alternate_file == match left {
                Some(path) => if in_brackets(path) {
                    r.alternate_file
                } else {
                    path
                },
                None => r.alternate_file,
            }
            &&& f.current_file == match entered {
                Some(path) => if in_brackets(path) {
                    r.current_file
                } else {
                    path
                },
                None => r.current_file,
            }
            &&& f == (Registers {
                alternate_file: f.alternate_file,
                current_file: f.current_file,
                ..r
            })
        }),
{
}

/// Nothing is written over what the user cannot mean: a buffer is written only
/// where it is unsaved and has a file; and, unless that is forced, where it may
/// be changed and its file did not change since. What is left unwritten without
/// a word is saved already, or no document.
pub proof fn only_what_is_meant_is_written(
    e: Ed,
    index: int,
    force: bool,
    on_disk: bool,
    changed: Option<Result<bool, Seq<char>>>,
)
    requires
        0 <= index < e.bufs.len(),
    ensures
        ({
            let b = e.bufs[index];
            match write_step_of(e, index, force, on_disk, changed) {
                Step::Write(path) => {
                    &&& b.path == Some(path)
                    &&& b.modified || b.saved_changes != recorded_for(
                        e.undo,
                        e.undo.len() as int,
                        b.id,
                    )
                    &&& !force ==> !b.read_only && (b.mtime is None || changed == Some(
                        Ok::<bool, Seq<char>>(false),
                    ))
                },
                Step::AskDisk(path) => b.path == Some(path) && !force && b.mtime is Some && changed
                    is None && !b.read_only,
                Step::Skip => (!b.modified && b.saved_changes == recorded_for(
                    e.undo,
                    e.undo.len() as int,
                    b.id,
                )) || (b.path matches Some(path) && in_brackets(path) && !on_disk && b.mtime
                    is None),
                Step::Refuse(m) => {
                    &&& unsaved(e, index)
                    &&& b.path is None || (!force && (b.read_only || changed is Some))
                },
            }
        }),
{
}

/// A saved buffer holds what its file does: nothing is left unsaved of it, and
/// its text stays.
pub proof fn saved_buffers_are_saved(e: Ed, index: int, mtime: Option<u64>)
    requires
        0 <= index < e.bufs.len(),
        recorded_for(e.undo, e.undo.len() as int, e.bufs[index].id) <= usize::MAX,
    ensures
        !unsaved(saved(e, index, mtime), index),
        saved(e, index, mtime).bufs[index].text == e.bufs[index].text,
        saved(e, index, mtime).bufs[index].mtime == mtime,
        forall|i: int|
            0 <= i < e.bufs.len() && i != index ==> #[trigger] saved(e, index, mtime).bufs[i]
                == e.bufs[i],
{
}

/// Saving all buffers changes no text, and of each buffer either it is written,
/// or there is a message, or nothing was to be done.
pub proof fn saving_all_keeps_the_texts(e: Ed, disk: Seq<DiskAnswer>, k: int, force: bool, i: int)
    requires
        0 <= k <= disk.len(),
        disk.len() <= e.bufs.len(),
        0 <= i < e.bufs.len(),
    ensures
        ({
            let (f, written, errors) = all_written(e, disk, k, force);
            &&& f.bufs.len() == e.bufs.len()
            &&& f.bufs[i].text == e.bufs[i].text
            &&& f.bufs[i].path == e.bufs[i].path
            &&& f.undo == e.undo
            &&& i >= k ==> f.bufs[i] == e.bufs[i]
            &&& 0 <= written
            &&& written + errors.len() <= k
        }),
    decreases k,
{
    if k > 0 {
        saving_all_keeps_the_texts(e, disk, k - 1, force, i);
    }
}

/// A hidden buffer is written through only where it has a file, may be changed,
/// and its file is not known to have changed.
pub proof fn hidden_buffers_are_written_with_care(e: Ed, index: int, changed: Option<bool>)
    requires
        0 <= index < e.bufs.len(),
    ensures
        may_write_through(e, index, changed) <==> e.bufs[index].path is Some
            && !e.bufs[index].read_only && (e.bufs[index].mtime is None || changed == Some(false)),
{
}

/// How many changes were recorded for a buffer: those that name it.
pub proof fn recorded_changes_are_counted(undo: Seq<Recorded>, k: int, id: usize)
    requires
        0 < k <= undo.len(),
    ensures
        recorded_for(undo, k, id) == recorded_for(undo, k - 1, id) + if undo[k - 1].buffer == id {
            1nat
        } else {
            0nat
        },
        recorded_for(undo, 0, id) == 0,
{
}

/// A buffer is shown where it is the current one, a tab shows it, or a window
/// does.
pub proof fn shown_buffers(e: Ed, index: int, in_windows: Seq<usize>, tab: int)
    requires
        0 <= index < e.bufs.len(),
        0 <= tab < e.tabs.list.len(),
    ensures
        index == e.current ==> open_in_ui(e, index, in_windows),
        e.tabs.list[tab].buffer_id == Some(e.bufs[index].id) ==> open_in_ui(e, index, in_windows),
        in_windows.contains(index as usize) ==> open_in_ui(e, index, in_windows),
        index != e.current && !in_windows.contains(index as usize) && (forall|j: int|
            0 <= j < e.tabs.list.len() ==> (#[trigger] e.tabs.list[j]).buffer_id != Some(
                e.bufs[index].id,
            )) ==> !open_in_ui(e, index, in_windows),
{
    tabs_are_found(e.tabs, e.bufs[index].id, 0);
}

} // verus!
