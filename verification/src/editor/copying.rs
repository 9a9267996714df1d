//! Copying a selection and deleting it take the same text.
use crate::buffer::{removed, Buf};
use crate::editor::input::helpers::least;
use crate::editor::input::visual::{
    block_offsets, block_rows, selection_copy, selection_cut, selection_deleted, without_block,
};
use crate::editor::register::Registers;
use crate::editor::routing::routed;
use crate::editor::{after_col, selection_of, ChangeToken, Ed, Mode};
use crate::line_edits::{alike_to, breaks_are_alike, lines_are_alike, stretch_taken_out};
use crate::lines::{
    breaks_from, breaks_split, content_end, line_break_is, line_content, line_count,
    line_of_position, line_start, line_start_is, line_starts_grow, offset_is, offset_of,
    raw_line_count,
};
use crate::unicode::{char_col_of, graphemes_of};
use vstd::prelude::*;

verus! {

/// Taking a stretch out of a line leaves the lines above it as they are.
proof fn lines_above_stay(t: Seq<char>, line: nat, from: int, to: int, n: nat)
    requires
        n < line < raw_line_count(t),
        line_start(t, line) <= from <= to <= content_end(t, line),
    ensures
        ({
            let u = removed(t, from, to);
            &&& n < line_count(u)
            &&& n < raw_line_count(u)
            &&& line_start(u, n) == line_start(t, n)
            &&& content_end(u, n) == content_end(t, n)
            &&& line_content(u, n) == line_content(t, n)
            &&& alike_to(t, u, from)
            &&& content_end(t, n) < from
        }),
{
    let u = removed(t, from, to);
    line_start_is(t, line);
    assert(alike_to(t, u, from));
    lines_are_alike(t, u, from, line, n);
    line_start_is(t, n);
    assert(line_content(u, n) =~= line_content(t, n));
    line_of_position(t, line, from);
    breaks_are_alike(t, u, from, from);
    breaks_split(u, from);
}

proof fn rows_above_stay(
    t: Seq<char>,
    line: nat,
    from: int,
    to: int,
    top: int,
    n: int,
    left: nat,
    right: usize,
)
    requires
        0 <= n <= line < line_count(t),
        line_start(t, line) <= from <= to <= content_end(t, line),
    ensures
        block_rows(removed(t, from, to), top, n, left, right) == block_rows(t, top, n, left, right),
    decreases n,
{
    let u = removed(t, from, to);
    if n > top && n > 0 {
        rows_above_stay(t, line, from, to, top, n - 1, left, right);
        let l = (n - 1) as nat;
        lines_above_stay(t, line, from, to, l);
        line_start_is(t, l);
        let content = line_content(t, l);
        let clusters = graphemes_of(content).len();
        let last = if after_col(right) < clusters {
            after_col(right)
        } else {
            clusters
        };
        let a = offset_of(t, l, char_col_of(content, left));
        let b = offset_of(t, l, char_col_of(content, last));
        if a < b {
            assert(u.subrange(a, b) =~= t.subrange(a, b));
        }
    }
}

/// The rows that deleting a block takes out are those that copying it takes.
proof fn block_rows_agree(b: Buf, line: int, top: int, left: nat, right: usize)
    requires
        !b.read_only,
        0 <= top,
    ensures
        without_block(b, line, top, left, right).1 == block_rows(
            b.text,
            top,
            line + 1,
            left,
            right,
        ),
    decreases line - top + 1,
{
    if line < top || line < 0 {
    } else if line >= line_count(b.text) {
        block_rows_agree(b, line - 1, top, left, right);
    } else {
        match block_offsets(b.text, line as nat, left, right) {
            Some((from, to)) => {
                let content = line_content(b.text, line as nat);
                let clusters = graphemes_of(content).len();
                let last = if after_col(right) < clusters {
                    after_col(right)
                } else {
                    clusters
                };
                line_start_is(b.text, line as nat);
                offset_is(b.text, line as nat, char_col_of(content, left));
                offset_is(b.text, line as nat, char_col_of(content, last));
                if from < to {
                    let b1 = b.without(from, to);
                    rows_above_stay(b.text, line as nat, from, to, top, line, left, right);
                    block_rows_agree(b1, line - 1, top, left, right);
                } else {
                    block_rows_agree(b, line - 1, top, left, right);
                }
            },
            None => block_rows_agree(b, line - 1, top, left, right),
        }
    }
}

/// Behind the last line of a text is its end.
proof fn last_line_ends_the_text(t: Seq<char>, n: nat)
    requires
        n >= line_count(t),
    ensures
        offset_of(t, n, 0) == t.len(),
{
    line_start_is(t, n);
    line_break_is(t, line_start(t, n));
    if n < raw_line_count(t) {
        assert(t.len() > 0 && t.last() == '\n');
        assert(breaks_from(t, line_start(t, n)) == 0);
        if line_start(t, n) < t.len() {
            assert(t[t.len() - 1] != '\n');
        }
    }
}

/// Copying a selection and deleting it take the same text, of the same type,
/// in every visual mode.
pub proof fn copy_and_deletion_take_the_same(
    b: Buf,
    mode: Mode,
    start: (usize, usize),
    end: (usize, usize),
)
    requires
        !b.read_only,
        start.0 <= end.0 < usize::MAX,
    ensures
        selection_copy(b, mode, start, end).0 == selection_cut(b, mode, start, end).1,
        selection_copy(b, mode, start, end).1 == selection_cut(b, mode, start, end).2,
{
    match mode {
        Mode::VisualLine => {
            let n = (end.0 + 1) as nat;
            line_start_is(b.text, start.0 as nat);
            line_start_is(b.text, n);
            line_starts_grow(b.text, start.0 as nat, n);
            if n >= line_count(b.text) {
                last_line_ends_the_text(b.text, n);
            }
            let from = line_start(b.text, start.0 as nat);
            if selection_cut(b, mode, start, end).1.len() == 0 {
                assert(selection_copy(b, mode, start, end).0 =~= Seq::empty());
            }
        },
        Mode::VisualBlock => {
            block_rows_agree(b, end.0 as int, start.0 as int, start.1 as nat, end.1);
        },
        _ => {},
    }
}

/// Where a cluster of a line starts in the text.
pub open spec fn cluster_place(t: Seq<char>, line: nat, k: nat) -> int {
    offset_of(t, line, char_col_of(line_content(t, line), k))
}

/// A line without the clusters from one to another; a line that is too short
/// is left.
pub open spec fn without_clusters(line: Seq<char>, left: nat, right: usize) -> Seq<char> {
    let clusters = graphemes_of(line).len();
    let last = if after_col(right) < clusters {
        after_col(right)
    } else {
        clusters
    };
    let from = least(char_col_of(line, left) as int, line.len() as int);
    let to = least(char_col_of(line, last) as int, line.len() as int);
    if left < clusters && from < to {
        line.take(from) + line.skip(to)
    } else {
        line
    }
}

/// A selection from one place of a text to another was deleted: what was
/// between them, in whole clusters, is gone, the rest of the two lines is one,
/// and the lines above and below are as they were.
pub open spec fn stretch_deleted(
    t: Seq<char>,
    u: Seq<char>,
    taken: Seq<char>,
    start: (usize, usize),
    end: (usize, usize),
) -> bool {
    let from = cluster_place(t, start.0 as nat, start.1 as nat);
    let to = cluster_place(t, end.0 as nat, after_col(end.1));
    if from < to {
        &&& taken == t.subrange(from, to)
        &&& u == t.take(from) + t.skip(to)
        &&& forall|n: nat|
            n < start.0 ==> #[trigger] line_content(u, n) == line_content(t, n)
        &&& forall|n: nat|
            n > end.0 ==> #[trigger] line_content(t, n) == line_content(
                u,
                (n - (end.0 - start.0)) as nat,
            )
    } else {
        u == t && taken == Seq::<char>::empty()
    }
}

/// Whole lines were deleted: the lines above are as they were, and those below
/// follow them.
pub open spec fn lines_deleted(
    t: Seq<char>,
    u: Seq<char>,
    taken: Seq<char>,
    first: usize,
    last: usize,
) -> bool {
    let from = line_start(t, first as nat);
    let to = line_start(t, (last + 1) as nat);
    &&& taken == t.subrange(from, to)
    &&& u == t.take(from) + t.skip(to)
    &&& forall|n: nat| n < first ==> #[trigger] line_content(u, n) == line_content(t, n)
    &&& forall|n: nat|
        last < n < raw_line_count(t) ==> #[trigger] line_content(t, n) == line_content(
            u,
            (n - (last + 1 - first)) as nat,
        )
}

/// A block was deleted: each of its lines is without its clusters of the
/// block, and every other line is as it was.
pub open spec fn block_deleted(
    t: Seq<char>,
    u: Seq<char>,
    top: int,
    bottom: int,
    left: nat,
    right: usize,
) -> bool {
    &&& raw_line_count(u) == raw_line_count(t)
    &&& forall|n: nat|
        #[trigger] line_content(u, n) == if top <= n <= bottom && n < line_count(t) {
            without_clusters(line_content(t, n), left, right)
        } else {
            line_content(t, n)
        }
}

/// A stretch of clusters of a line, in the text and in the line.
proof fn block_stretch(t: Seq<char>, line: nat, left: nat, right: usize)
    requires
        line < line_count(t),
    ensures
        ({
            let content = line_content(t, line);
            let start = line_start(t, line);
            match block_offsets(t, line, left, right) {
                Some((from, to)) => {
                    &&& start <= from <= content_end(t, line)
                    &&& start <= to <= content_end(t, line)
                    &&& from < to ==> without_clusters(content, left, right) == content.take(
                        from - start,
                    ) + content.skip(to - start)
                    &&& from >= to ==> without_clusters(content, left, right) == content
                },
                None => without_clusters(content, left, right) == content,
            }
        }),
{
    line_start_is(t, line);
}

proof fn block_is_deleted(b: Buf, line: int, top: int, left: nat, right: usize)
    requires
        !b.read_only,
        0 <= top,
    ensures
        block_deleted(
            b.text,
            without_block(b, line, top, left, right).0.text,
            top,
            line,
            left,
            right,
        ),
    decreases line - top + 1,
{
    let t = b.text;
    if line < top || line < 0 {
    } else if line >= line_count(t) {
        block_is_deleted(b, line - 1, top, left, right);
    } else {
        let l = line as nat;
        block_stretch(t, l, left, right);
        match block_offsets(t, l, left, right) {
            Some((from, to)) if from < to => {
                let b1 = b.without(from, to);
                let u = b1.text;
                let r = without_block(b1, line - 1, top, left, right).0.text;
                line_start_is(t, l);
                stretch_taken_out(t, l, from, l, to);
                block_is_deleted(b1, line - 1, top, left, right);
                let content = line_content(t, l);
                let start = line_start(t, l);
                assert(line_content(u, l) =~= content.take(from - start) + content.skip(
                    to - start,
                ));
                assert forall|n: nat|
                    #[trigger] line_content(r, n) == if top <= n <= line && n < line_count(t) {
                        without_clusters(line_content(t, n), left, right)
                    } else {
                        line_content(t, n)
                    } by {
                    if n < l {
                        lines_above_stay(t, l, from, to, n);
                        assert(line_content(u, n) == line_content(t, n));
                    } else if n > l {
                        assert(line_content(t, n) == line_content(u, (n - (l - l)) as nat));
                    }
                    assert(line_content(r, n) == if top <= n <= line - 1 && n < line_count(u) {
                        without_clusters(line_content(u, n), left, right)
                    } else {
                        line_content(u, n)
                    });
                }
            },
            _ => block_is_deleted(b, line - 1, top, left, right),
        }
    }
}

/// The character columns of both ends of a selection are machine numbers.
pub open spec fn columns_fit(t: Seq<char>, start: (usize, usize), end: (usize, usize)) -> bool {
    &&& char_col_of(line_content(t, start.0 as nat), start.1 as nat) <= usize::MAX
    &&& char_col_of(line_content(t, end.0 as nat), after_col(end.1)) <= usize::MAX
}

proof fn stretch_is_deleted(b: Buf, start: (usize, usize), end: (usize, usize))
    requires
        !b.read_only,
        columns_fit(b.text, start, end),
        start.0 <= end.0 < line_count(b.text),
    ensures
        stretch_deleted(
            b.text,
            selection_cut(b, Mode::Visual, start, end).0.text,
            selection_cut(b, Mode::Visual, start, end).1,
            start,
            end,
        ),
{
    let t = b.text;
    let from = cluster_place(t, start.0 as nat, start.1 as nat);
    let to = cluster_place(t, end.0 as nat, after_col(end.1));
    line_start_is(t, start.0 as nat);
    line_start_is(t, end.0 as nat);
    if from < to {
        stretch_taken_out(t, start.0 as nat, from, end.0 as nat, to);
    }
}

proof fn lines_are_deleted(b: Buf, start: (usize, usize), end: (usize, usize))
    requires
        !b.read_only,
        start.0 <= end.0 < line_count(b.text),
        end.0 < usize::MAX,
    ensures
        lines_deleted(
            b.text,
            selection_cut(b, Mode::VisualLine, start, end).0.text,
            selection_cut(b, Mode::VisualLine, start, end).1,
            start.0,
            end.0,
        ),
{
    let t = b.text;
    let l1 = start.0 as nat;
    let below = (end.0 + 1) as nat;
    let from = line_start(t, l1);
    let to = line_start(t, below);
    line_start_is(t, l1);
    line_start_is(t, below);
    line_starts_grow(t, l1, below);
    let u = removed(t, from, to);
    if from == to {
        assert(t.subrange(from, to) =~= Seq::empty());
        assert(u =~= t);
    }
    assert(selection_cut(b, Mode::VisualLine, start, end).0.text =~= u);
    if below < raw_line_count(t) {
        stretch_taken_out(t, l1, from, below, to);
        assert(line_content(u, l1) =~= line_content(t, below));
    } else {
        assert(alike_to(t, u, from));
        assert forall|n: nat| n < l1 implies #[trigger] line_content(u, n) == line_content(t, n) by {
            lines_are_alike(t, u, from, l1, n);
            line_start_is(t, n);
            assert(line_content(u, n) =~= line_content(t, n));
        }
    }
}

/// A block holds something: a row of it is not empty.
pub open spec fn holds_something(rows: Seq<Seq<char>>) -> bool {
    exists|i: int| 0 <= i < rows.len() && (#[trigger] rows[i]).len() > 0
}

proof fn block_deletion_is_logged(b: Buf, line: int, top: int, left: nat, right: usize)
    ensures
        without_block(b, line, top, left, right).0.log.len() >= b.log.len(),
        holds_something(without_block(b, line, top, left, right).1) ==> without_block(
            b,
            line,
            top,
            left,
            right,
        ).0.log.len() > b.log.len(),
    decreases line - top + 1,
{
    if line < top || line < 0 {
    } else if line >= line_count(b.text) {
        block_deletion_is_logged(b, line - 1, top, left, right);
    } else {
        match block_offsets(b.text, line as nat, left, right) {
            Some((from, to)) => {
                let b1 = b.without(from, to);
                block_deletion_is_logged(b1, line - 1, top, left, right);
                let rows = without_block(b1, line - 1, top, left, right).1;
                let all = rows.push(b.cut(from, to));
                if holds_something(all) {
                    let i = choose|i: int| 0 <= i < all.len() && (#[trigger] all[i]).len() > 0;
                    if i < rows.len() {
                        assert(rows[i].len() > 0);
                    }
                }
            },
            None => {
                block_deletion_is_logged(b, line - 1, top, left, right);
                let rows = without_block(b, line - 1, top, left, right).1;
                let all = rows.push(Seq::empty());
                if holds_something(all) {
                    let i = choose|i: int| 0 <= i < all.len() && (#[trigger] all[i]).len() > 0;
                    assert(rows[i].len() > 0);
                }
            },
        }
    }
}

/// Copying a selection and deleting it agree. The deletion takes out exactly
/// the text that a copy takes, in whole clusters; it leaves the lines outside
/// the selection as they are; it stores what the copy stores in the unnamed
/// register; and where the selection holds something it is recorded. Without a
/// selection nothing happens.
pub proof fn deletion_is_a_copy_taken_out(
    e: Ed,
    after: Ed,
    token: Option<ChangeToken>,
    r: Registers,
)
    requires
        selection_deleted(e, after, token),
        selection_of(e) matches Some((start, end)) ==> start.0 <= end.0 < line_count(e.cur().text)
            && end.0 < usize::MAX && !e.cur().read_only && columns_fit(e.cur().text, start, end),
        e.wf(),
    ensures
        match selection_of(e) {
            None => token is None && after == e,
            Some((start, end)) => {
                let b = e.cur();
                let t = b.text;
                let u = after.cur().text;
                let (text, reg_type) = selection_copy(b, e.input.mode, start, end);
                &&& (selection_cut(b, e.input.mode, start, end).1, selection_cut(
                    b,
                    e.input.mode,
                    start,
                    end,
                ).2) == (text, reg_type)
                &&& routed(r, None, text, reg_type, true).unnamed == (text, reg_type)
                &&& routed(r, None, text, reg_type, false).unnamed == (text, reg_type)
                &&& match e.input.mode {
                    Mode::VisualLine => lines_deleted(t, u, text, start.0, end.0),
                    Mode::VisualBlock => block_deleted(
                        t,
                        u,
                        start.0 as int,
                        end.0 as int,
                        start.1 as nat,
                        end.1,
                    ),
                    _ => stretch_deleted(t, u, text, start, end),
                }
                &&& match e.input.mode {
                    Mode::VisualBlock => holds_something(
                        block_rows(t, start.0 as int, end.0 + 1, start.1 as nat, end.1),
                    ),
                    _ => text.len() > 0,
                } ==> token is Some
            },
        },
{
    if let Some((start, end)) = selection_of(e) {
        let b = e.cur();
        let mode = e.input.mode;
        copy_and_deletion_take_the_same(b, mode, start, end);
        let cut = selection_cut(b, mode, start, end);
        match mode {
            Mode::VisualLine => lines_are_deleted(b, start, end),
            Mode::VisualBlock => {
                block_is_deleted(b, end.0 as int, start.0 as int, start.1 as nat, end.1);
                block_rows_agree(b, end.0 as int, start.0 as int, start.1 as nat, end.1);
                block_deletion_is_logged(b, end.0 as int, start.0 as int, start.1 as nat, end.1);
                if cut.0.log.len() <= b.log.len() {
                    block_unlogged(b, end.0 as int, start.0 as int, start.1 as nat, end.1);
                }
            },
            _ => stretch_is_deleted(b, start, end),
        }
    }
}

/// A block deletion that was not recorded changed nothing.
proof fn block_unlogged(b: Buf, line: int, top: int, left: nat, right: usize)
    requires
        without_block(b, line, top, left, right).0.log.len() <= b.log.len(),
    ensures
        without_block(b, line, top, left, right).0.text == b.text,
    decreases line - top + 1,
{
    if line < top || line < 0 {
    } else if line >= line_count(b.text) {
        block_unlogged(b, line - 1, top, left, right);
    } else {
        match block_offsets(b.text, line as nat, left, right) {
            Some((from, to)) => {
                let b1 = b.without(from, to);
                block_deletion_is_logged(b1, line - 1, top, left, right);
                block_unlogged(b1, line - 1, top, left, right);
            },
            None => block_unlogged(b, line - 1, top, left, right),
        }
    }
}

} // verus!
