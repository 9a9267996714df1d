//! Edits that a language server asks for.
//!
//! All ranges of a series speak of the text before any of its edits. The
//! edits are made from the end of the text to its start, so that the ranges
//! of those still to come stay where they were.
use crate::buffer::{changes, inserted, removed, Buf, Buffer};
use crate::editor::clipboard::ClipboardBackend;
use crate::editor::lsp_state::{sync_at, Lsp, Sync};
use crate::editor::{pos_at, recorded_models, CursorPos, Ed, Editor, Recorded, RecordedChange};
use crate::lines::{
    breaks_from, content_end, line_break_is, line_content, line_count, line_start, line_start_is,
    offset_of, raw_line_count,
};
use crate::lsp::{chars_to_utf16, utf16_to_char_col, TextEdit};
use crate::text::chars_of;
use crate::unicode::CharCol;
use vstd::prelude::*;

verus! {

/// The first `k` characters of a text with line feeds for all line ends.
pub open spec fn line_feeds(t: Seq<char>, k: int) -> Seq<char>
    decreases k,
{
    if k <= 0 || k > t.len() {
        Seq::empty()
    } else {
        let before = line_feeds(t, k - 1);
        if t[k - 1] == '\r' {
            before.push('\n')
        } else if t[k - 1] == '\n' && k >= 2 && t[k - 2] == '\r' {
            before
        } else {
            before.push(t[k - 1])
        }
    }
}

/// A text with line feeds for all line ends.
pub fn normalize_for_buffer(text: &str) -> (out: String)
    ensures
        out@ == line_feeds(text@, text@.len() as int),
{
    let cs = chars_of(text);
    let mut out = String::new();
    let mut k: usize = 0;
    while k < cs.len()
        invariant
            k <= cs.len(),
            cs@ == text@,
            out@ == line_feeds(text@, k as int),
        decreases cs.len() - k,
    {
        let c = cs[k];
        if c == '\r' {
            out.push('\n');
        } else if c == '\n' && k >= 1 && cs[k - 1] == '\r' {
        } else {
            out.push(c);
        }
        k += 1;
    }
    out
}

/// An edit with its range in lines and characters.
#[derive(Debug)]
pub struct ResolvedTextEdit {
    pub start_line: usize,
    pub start_col: CharCol,
    pub end_line: usize,
    pub end_col: CharCol,
    /// An empty range: nothing is taken out.
    pub is_insert: bool,
    pub new_text: String,
}

/// A model of an edit with its range in lines and characters.
pub ghost struct Resolved {
    pub index: int,
    pub start: (nat, nat),
    pub end: (nat, nat),
    pub insert: bool,
    pub text: Seq<char>,
}

/// The character column of a UTF-16 column; the column itself behind the text.
pub open spec fn column_of(t: Seq<char>, line: nat, utf16: u32) -> nat {
    if line < line_count(t) {
        chars_to_utf16(line_content(t, line), 0, utf16 as int) as nat
    } else {
        utf16 as nat
    }
}

/// The character column of a UTF-16 column of a line of a buffer.
pub fn utf16_to_col_for_buffer(buffer: &Buffer, line: usize, utf16_offset: u32) -> (c: CharCol)
    ensures
        c.0 == column_of(buffer.text(), line as nat, utf16_offset),
{
    match buffer.line_text(line) {
        Some(text) => CharCol(utf16_to_char_col(text.as_str(), utf16_offset)),
        None => CharCol(utf16_offset as usize),
    }
}

/// An edit with its range in lines and characters of a text. One that starts
/// behind the text has none; an insertion may start on the empty stretch
/// behind a final line feed.
pub open spec fn resolved(t: Seq<char>, e: TextEdit, index: int) -> Option<Resolved> {
    let insert = e.range.start == e.range.end;
    let limit = if insert {
        raw_line_count(t)
    } else {
        line_count(t)
    };
    if e.range.start.line >= limit {
        None
    } else {
        Some(
            Resolved {
                index,
                start: (
                    e.range.start.line as nat,
                    column_of(t, e.range.start.line as nat, e.range.start.character),
                ),
                end: (
                    e.range.end.line as nat,
                    column_of(t, e.range.end.line as nat, e.range.end.character),
                ),
                insert,
                text: line_feeds(e.new_text@, e.new_text@.len() as int),
            },
        )
    }
}

impl ResolvedTextEdit {
    pub open spec fn is(self, r: Resolved) -> bool {
        &&& (self.start_line as nat, self.start_col.0 as nat) == r.start
        &&& (self.end_line as nat, self.end_col.0 as nat) == r.end
        &&& self.is_insert == r.insert
        &&& self.new_text@ == r.text
    }
}

/// A later edit of the series is made before an earlier one: it starts behind
/// it, or at the same place and it replaces, or both insert.
pub open spec fn comes_first(later: Resolved, earlier: Resolved) -> bool {
    later.start.0 > earlier.start.0 || (later.start.0 == earlier.start.0 && (later.start.1
        > earlier.start.1 || (later.start.1 == earlier.start.1 && (!later.insert
        || earlier.insert))))
}

/// Where a later edit stands among the first `k` of those that are in order.
pub open spec fn edit_slot(list: Seq<Resolved>, k: int, r: Resolved) -> int
    decreases list.len() - k,
{
    if k < 0 || k >= list.len() || comes_first(r, list[k]) {
        k
    } else {
        edit_slot(list, k + 1, r)
    }
}

/// Those of the first `k` edits that have a place in the text, in the order
/// in which they are made.
pub open spec fn edit_order(t: Seq<char>, edits: Seq<TextEdit>, k: int) -> Seq<Resolved>
    decreases k,
{
    if k <= 0 || k > edits.len() {
        Seq::empty()
    } else {
        let before = edit_order(t, edits, k - 1);
        match resolved(t, edits[k - 1], k - 1) {
            Some(r) => before.insert(edit_slot(before, 0, r), r),
            None => before,
        }
    }
}

/// All of the first `k` edits have a place in the text.
pub open spec fn all_resolved(t: Seq<char>, edits: Seq<TextEdit>, k: int) -> bool {
    forall|i: int| 0 <= i < k ==> #[trigger] resolved(t, edits[i], i) is Some
}

/// A buffer after one edit.
pub open spec fn edited(b: Buf, r: Resolved) -> Buf {
    let c = if r.insert {
        b
    } else {
        b.without(
            offset_of(b.text, r.start.0, r.start.1),
            offset_of(b.text, r.end.0, r.end.1),
        )
    };
    c.with_insert(offset_of(c.text, r.start.0, r.start.1), r.text)
}

/// A buffer after the first `k` edits.
pub open spec fn edited_by(b: Buf, list: Seq<Resolved>, k: int) -> Buf
    decreases k,
{
    if k <= 0 || k > list.len() {
        b
    } else {
        edited(edited_by(b, list, k - 1), list[k - 1])
    }
}

/// A buffer after a series of edits.
pub open spec fn after_edits(b: Buf, edits: Seq<TextEdit>) -> Buf {
    let list = edit_order(b.text, edits, edits.len() as int);
    edited_by(b, list, list.len() as int)
}

pub open spec fn are_resolved(list: Seq<ResolvedTextEdit>, model: Seq<Resolved>) -> bool {
    &&& list.len() == model.len()
    &&& forall|i: int| 0 <= i < list.len() ==> (#[trigger] list[i]).is(model[i])
}

proof fn slot_is_inside(list: Seq<Resolved>, k: int, r: Resolved)
    requires
        0 <= k <= list.len(),
    ensures
        k <= edit_slot(list, k, r) <= list.len(),
        forall|i: int| k <= i < edit_slot(list, k, r) ==> !comes_first(r, #[trigger] list[i]),
        edit_slot(list, k, r) < list.len() ==> comes_first(r, list[edit_slot(list, k, r)]),
    decreases list.len() - k,
{
    if k < list.len() && !comes_first(r, list[k]) {
        slot_is_inside(list, k + 1, r);
    }
}

fn resolve(buf: &Buffer, edit: &TextEdit, Ghost(index): Ghost<int>) -> (res: Option<
    ResolvedTextEdit,
>)
    ensures
        match res {
            Some(e) => resolved(buf.text(), *edit, index) is Some && e.is(
                resolved(buf.text(), *edit, index)->0,
            ),
            None => resolved(buf.text(), *edit, index) is None,
        },
{
    let start = edit.range.start;
    let end = edit.range.end;
    let is_insert = start == end;
    let limit: usize = if is_insert {
        buf.raw_line_count()
    } else {
        buf.line_count()
    };
    let start_line: usize = start.line as usize;
    let end_line: usize = end.line as usize;
    if start_line >= limit {
        return None;
    }
    Some(
        ResolvedTextEdit {
            start_line,
            start_col: utf16_to_col_for_buffer(buf, start_line, start.character),
            end_line,
            end_col: utf16_to_col_for_buffer(buf, end_line, end.character),
            is_insert,
            new_text: normalize_for_buffer(edit.new_text.as_str()),
        },
    )
}

fn precedes(later: &ResolvedTextEdit, earlier: &ResolvedTextEdit) -> (res: bool)
    ensures
        forall|a: Resolved, b: Resolved|
            later.is(a) && earlier.is(b) ==> res == #[trigger] comes_first(a, b),
{
    later.start_line > earlier.start_line || (later.start_line == earlier.start_line && (
    later.start_col.0 > earlier.start_col.0 || (later.start_col.0 == earlier.start_col.0 && (
    !later.is_insert || earlier.is_insert))))
}

/// Makes a series of edits, all of which speak of the text before any of them;
/// whether each had a place in the text. Those that have none are left out.
pub fn apply_text_edits_to_buffer(buf: &mut Buffer, edits: &Vec<TextEdit>) -> (all: bool)
    ensures
        all == all_resolved(old(buf).text(), edits@, edits.len() as int),
        final(buf).model() == after_edits(old(buf).model(), edits@),
{
    let ghost t = buf.text();
    let mut all = true;
    let mut list: Vec<ResolvedTextEdit> = Vec::new();
    let mut k: usize = 0;
    while k < edits.len()
        invariant
            k <= edits.len(),
            *buf == *old(buf),
            t == buf.text(),
            all == all_resolved(t, edits@, k as int),
            are_resolved(list@, edit_order(t, edits@, k as int)),
        decreases edits.len() - k,
    {
        let ghost model = edit_order(t, edits@, k as int);
        match resolve(buf, &edits[k], Ghost(k as int)) {
            Some(e) => {
                let ghost r = resolved(t, edits@[k as int], k as int)->0;
                let mut at: usize = 0;
                while at < list.len() && !precedes(&e, &list[at])
                    invariant
                        at <= list.len(),
                        e.is(r),
                        are_resolved(list@, model),
                        edit_slot(model, at as int, r) == edit_slot(model, 0, r),
                    decreases list.len() - at,
                {
                    proof {
                        assert(!comes_first(r, model[at as int])) by {
                            assert(list@[at as int].is(model[at as int]));
                        }
                    }
                    at += 1;
                }
                proof {
                    if at < list.len() {
                        assert(list@[at as int].is(model[at as int]));
                        assert(comes_first(r, model[at as int]));
                    }
                }
                let ghost before = list@;
                list.insert(at, e);
                proof {
                    let now = model.insert(at as int, r);
                    assert forall|i: int| 0 <= i < list.len() implies (#[trigger] list@[i]).is(
                        now[i],
                    ) by {
                        if i < at {
                            assert(before[i].is(model[i]));
                        } else if i > at {
                            assert(before[i - 1].is(model[i - 1]));
                        }
                    }
                }
            },
            None => {
                all = false;
                proof {
                    assert(resolved(t, edits@[k as int], k as int) is None);
                }
            },
        }
        k += 1;
    }
    let ghost model = edit_order(t, edits@, edits.len() as int);
    let ghost b = buf.model();
    let mut i: usize = 0;
    while i < list.len()
        invariant
            i <= list.len(),
            are_resolved(list@, model),
            buf.model() == edited_by(b, model, i as int),
        decreases list.len() - i,
    {
        let e = &list[i];
        proof {
            assert(e.is(model[i as int]));
        }
        if !e.is_insert {
            let _ = buf.delete_range(e.start_line, e.start_col, e.end_line, e.end_col);
        }
        let _ = buf.insert_text_at(e.start_line, e.start_col, e.new_text.as_str());
        i += 1;
    }
    all
}

/// The order in which edits are made: from the end of the text to its start;
/// of those that start at one place replacements first, then insertions, a
/// later one before an earlier one, so that they read in the order of the
/// series.
pub proof fn edits_are_in_order(t: Seq<char>, edits: Seq<TextEdit>, k: int, i: int, j: int)
    requires
        0 <= k <= edits.len(),
        0 <= i < j < edit_order(t, edits, k).len(),
    ensures
        ({
            let a = edit_order(t, edits, k)[i];
            let b = edit_order(t, edits, k)[j];
            &&& a.index < k && b.index < k
            &&& (b.start.0 < a.start.0 || (b.start.0 == a.start.0 && b.start.1 <= a.start.1))
            &&& a.start == b.start && a.insert ==> b.insert
            &&& a.start == b.start && a.insert == b.insert ==> a.index > b.index
        }),
    decreases k,
{
    let before = edit_order(t, edits, k - 1);
    order_indices(t, edits, k);
    match resolved(t, edits[k - 1], k - 1) {
        Some(r) => {
            slot_is_inside(before, 0, r);
            order_indices(t, edits, k - 1);
            let s = edit_slot(before, 0, r);
            let list = before.insert(s, r);
            if i == s {
                // The new edit stands before the one at its slot, and that one
                // before the rest.
                assert(list[j] == before[j - 1]);
                if j - 1 > s {
                    edits_are_in_order(t, edits, k - 1, s, j - 1);
                }
                assert(comes_first(r, before[s]));
            } else if j == s {
                assert(!comes_first(r, before[i]));
            } else {
                let i0 = if i < s {
                    i
                } else {
                    i - 1
                };
                let j0 = if j < s {
                    j
                } else {
                    j - 1
                };
                edits_are_in_order(t, edits, k - 1, i0, j0);
            }
        },
        None => {
            edits_are_in_order(t, edits, k - 1, i, j);
        },
    }
}

proof fn order_indices(t: Seq<char>, edits: Seq<TextEdit>, k: int)
    requires
        0 <= k <= edits.len(),
    ensures
        forall|i: int|
            0 <= i < edit_order(t, edits, k).len() ==> (#[trigger] edit_order(t, edits, k)[i]).index
                < k,
    decreases k,
{
    if k > 0 {
        order_indices(t, edits, k - 1);
        let before = edit_order(t, edits, k - 1);
        if let Some(r) = resolved(t, edits[k - 1], k - 1) {
            slot_is_inside(before, 0, r);
        }
    }
}

/// Where an edit starts in a text.
pub open spec fn starts_at(t: Seq<char>, r: Resolved) -> int {
    offset_of(t, r.start.0, r.start.1)
}

/// Where an edit ends in a text.
pub open spec fn ends_at(t: Seq<char>, r: Resolved) -> int {
    offset_of(t, r.end.0, r.end.1)
}

/// A position that lies in a text: its column is not behind its line.
pub open spec fn lies_in(t: Seq<char>, p: (nat, nat)) -> bool {
    p.0 < raw_line_count(t) && p.1 <= line_content(t, p.0).len()
}

/// Where the text that the first `k` edits leave alone ends.
pub open spec fn untouched(t: Seq<char>, list: Seq<Resolved>, k: int) -> int {
    if k <= 0 || k > list.len() {
        t.len() as int
    } else {
        starts_at(t, list[k - 1])
    }
}

/// The ranges lie in the text and do not overlap, from the end of the text to
/// its start.
pub open spec fn apart(t: Seq<char>, list: Seq<Resolved>) -> bool {
    forall|i: int|
        #![trigger list[i]]
        0 <= i < list.len() ==> lies_in(t, list[i].start) && lies_in(t, list[i].end) && (
        list[i].insert ==> list[i].start == list[i].end) && starts_at(t, list[i]) <= ends_at(
            t,
            list[i],
        ) <= untouched(t, list, i)
}

/// What the first `k` edits make of the text from the start of the last of
/// them on: its new text, what lies between it and the next, and so on.
pub open spec fn merged(t: Seq<char>, list: Seq<Resolved>, k: int) -> Seq<char>
    decreases k,
{
    if k <= 0 || k > list.len() {
        Seq::empty()
    } else {
        list[k - 1].text + t.subrange(ends_at(t, list[k - 1]), untouched(t, list, k - 1)) + merged(
            t,
            list,
            k - 1,
        )
    }
}

/// Edits that do not overlap are made as if all at once: each range of the
/// text before the edits is replaced by its new text, and nothing else changes.
pub proof fn edits_apply_together(b: Buf, edits: Seq<TextEdit>)
    requires
        !b.read_only,
        apart(b.text, edit_order(b.text, edits, edits.len() as int)),
    ensures
        ({
            let list = edit_order(b.text, edits, edits.len() as int);
            let n = list.len() as int;
            after_edits(b, edits).text == b.text.take(untouched(b.text, list, n)) + merged(
                b.text,
                list,
                n,
            )
        }),
{
    let list = edit_order(b.text, edits, edits.len() as int);
    together(b, list, list.len() as int);
}

proof fn together(b: Buf, list: Seq<Resolved>, k: int)
    requires
        !b.read_only,
        apart(b.text, list),
        0 <= k <= list.len(),
    ensures
        !edited_by(b, list, k).read_only,
        0 <= untouched(b.text, list, k) <= b.text.len(),
        edited_by(b, list, k).text == b.text.take(untouched(b.text, list, k)) + merged(
            b.text,
            list,
            k,
        ),
    decreases k,
{
    let t = b.text;
    if k == 0 {
        assert(t.take(t.len() as int) + merged(t, list, 0) =~= t);
    } else {
        together(b, list, k - 1);
        one_edit(edited_by(b, list, k - 1), t, list, k);
    }
}

/// One edit more.
proof fn one_edit(c: Buf, t: Seq<char>, list: Seq<Resolved>, k: int)
    requires
        !c.read_only,
        apart(t, list),
        0 < k <= list.len(),
        0 <= untouched(t, list, k - 1) <= t.len(),
        c.text == t.take(untouched(t, list, k - 1)) + merged(t, list, k - 1),
    ensures
        !edited(c, list[k - 1]).read_only,
        0 <= untouched(t, list, k) <= t.len(),
        edited(c, list[k - 1]).text == t.take(untouched(t, list, k)) + merged(t, list, k),
{
    let r = list[k - 1];
    let n = untouched(t, list, k - 1);
    let from = starts_at(t, r);
    let to = ends_at(t, r);
    line_start_is(t, r.start.0);
    line_start_is(t, r.end.0);
    assert(0 <= from <= to <= n);
    let rest = merged(t, list, k - 1);
    same_offset(t, c.text, n, r.start);
    same_offset(t, c.text, n, r.end);
    let d = if r.insert {
        c
    } else {
        c.without(from, to)
    };
    let kept = t.subrange(to, n) + rest;
    assert(d.text =~= t.take(from) + kept) by {
        assert(c.text =~= t.take(from) + t.subrange(from, to) + kept);
        if !r.insert && from < to {
            assert(removed(c.text, from, to) =~= t.take(from) + kept);
        }
    }
    assert(d.text.len() >= from);
    same_offset(t, d.text, from, r.start);
    let f = edited(c, r);
    assert(f.text =~= t.take(from) + r.text + kept) by {
        if r.text.len() > 0 {
            assert(inserted(d.text, from, r.text) =~= t.take(from) + r.text + kept);
        }
    }
    assert(merged(t, list, k) =~= r.text + kept);
    assert(f.text =~= t.take(from) + merged(t, list, k));
}

/// Two texts that agree up to a place agree on the positions up to it.
proof fn same_offset(t: Seq<char>, u: Seq<char>, n: int, p: (nat, nat))
    requires
        0 <= n <= t.len(),
        n <= u.len(),
        forall|j: int| 0 <= j < n ==> t[j] == u[j],
        lies_in(t, p),
        offset_of(t, p.0, p.1) <= n,
    ensures
        offset_of(u, p.0, p.1) == offset_of(t, p.0, p.1),
{
    line_start_is(t, p.0);
    same_line_start(t, u, n, p.0);
    line_start_is(u, p.0);
    let o = offset_of(t, p.0, p.1);
    assert(o == line_start(t, p.0) + p.1);
    let e = content_end(u, p.0);
    line_break_is(u, line_start(u, p.0));
    assert(e >= o) by {
        if e < o {
            assert(u[e] == '\n');
            assert(t[e] == '\n');
        }
    }
}

proof fn same_line_start(t: Seq<char>, u: Seq<char>, n: int, line: nat)
    requires
        0 <= n <= t.len(),
        n <= u.len(),
        forall|j: int| 0 <= j < n ==> t[j] == u[j],
        line < raw_line_count(t),
        line_start(t, line) <= n,
    ensures
        line_start(u, line) == line_start(t, line),
        line < raw_line_count(u),
    decreases line,
{
    if line > 0 {
        let m = (line - 1) as nat;
        line_start_is(t, m);
        line_start_is(t, line);
        line_break_is(t, line_start(t, m));
        crate::lines::line_starts_grow(t, m, line);
        same_line_start(t, u, n, m);
        line_start_is(u, m);
        line_break_is(u, line_start(u, m));
        let e = content_end(t, m);
        assert(breaks_from(t, line_start(t, m)) >= 1);
        assert(e < t.len());
        assert(line_start(t, line) == e + 1);
        assert(u[e] == '\n');
        let f = content_end(u, m);
        assert(f == e) by {
            if f < e {
                assert(t[f] == u[f]);
            }
        }
        assert(breaks_from(u, line_start(u, m)) >= 1);
    }
}

/// What a server's edits leave: the edited buffer, one recorded change where
/// there was an edit, and a document that the server must hear of.
pub open spec fn edits_done(e: Ed, index: int, edits: Seq<TextEdit>) -> Ed {
    let b = e.bufs[index];
    let c = after_edits(b, edits);
    let made = c.log.skip(b.log.len() as int);
    let f = Ed { bufs: e.bufs.update(index, c), ..e };
    if made.len() == 0 {
        f
    } else {
        let sync = if c.path is Some {
            e.lsp.sync.insert(
                c.path->0,
                Sync { modified: true, ..sync_at(e.lsp.sync, c.path->0) },
            )
        } else {
            e.lsp.sync
        };
        Ed {
            undo: e.undo.push(
                Recorded {
                    buffer: c.id,
                    changes: made,
                    before: pos_at(b.cursor),
                    after: pos_at(c.cursor),
                },
            ),
            lsp: if index == e.current {
                Lsp { sync, cache: None, stale: true, ..e.lsp }
            } else {
                Lsp { sync, ..e.lsp }
            },
            ..f
        }
    }
}

proof fn edits_grow_log(b: Buf, list: Seq<Resolved>, k: int)
    requires
        0 <= k <= list.len(),
    ensures
        b.log.len() <= edited_by(b, list, k).log.len(),
    decreases k,
{
    if k > 0 {
        edits_grow_log(b, list, k - 1);
    }
}

/// Whether the server was told that a document is open is not touched by
/// edits, so a file that was never opened is still opened first.
pub proof fn edits_claim_nothing_opened(e: Ed, index: int, edits: Seq<TextEdit>, path: Seq<char>)
    requires
        0 <= index < e.bufs.len(),
    ensures
        sync_at(edits_done(e, index, edits).lsp.sync, path).opened == sync_at(
            e.lsp.sync,
            path,
        ).opened,
{
}

impl<B: ClipboardBackend> Editor<B> {
    /// Makes a server's edits in a buffer, recorded as one change; whether
    /// there is such a buffer and each edit had a place in it.
    pub fn apply_lsp_edits_to_buffer_index(
        &mut self,
        buffer_index: usize,
        edits: &Vec<TextEdit>,
    ) -> (all: bool)
        requires
            old(self).wf(),
        ensures
            final(self).wf(),
            final(self).registers == old(self).registers,
            if buffer_index < old(self).model().bufs.len() {
                &&& all == all_resolved(
                    old(self).model().bufs[buffer_index as int].text,
                    edits@,
                    edits.len() as int,
                )
                &&& final(self).model() == edits_done(
                    old(self).model(),
                    buffer_index as int,
                    edits@,
                )
            } else {
                !all && final(self).model() == old(self).model()
            },
    {
        if buffer_index >= self.buffers.len() {
            return false;
        }
        let ghost e = self.model();
        let ghost b = e.bufs[buffer_index as int];
        let buffer = self.buffer_at_mut(buffer_index);
        let version: usize = buffer.version();
        let c = buffer.cursor();
        let cursor_before = CursorPos { line: c.line(), col: c.col() };
        let all = apply_text_edits_to_buffer(buffer, edits);
        proof {
            let list = edit_order(b.text, edits@, edits@.len() as int);
            edits_grow_log(b, list, list.len() as int);
        }
        let made = buffer.edits_from(version);
        let c = buffer.cursor();
        let cursor_after = CursorPos { line: c.line(), col: c.col() };
        let id: usize = buffer.id();
        let path = match buffer.file_path() {
            Some(path) => Some(path.to_owned()),
            None => None,
        };
        if made.len() == 0 {
            return all;
        }
        let ghost before = recorded_models(self.undo@);
        let ghost r = Recorded {
            buffer: id,
            changes: changes(made@),
            before: cursor_before,
            after: cursor_after,
        };
        self.undo.push(RecordedChange { buffer: id, edits: made, cursor_before, cursor_after });
        proof {
            assert(recorded_models(self.undo@) =~= before.push(r));
        }
        if let Some(path) = path {
            self.lsp.mark_document_modified(path.as_str());
        }
        if buffer_index == self.current {
            self.invalidate_hover_cache();
            self.request_diagnostics_refresh();
        }
        all
    }
}

} // verus!
