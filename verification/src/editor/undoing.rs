//! A command that changes the text is recorded as one change, and undoing that
//! change gives the text back.
use crate::auto_indent::PlannedIndent;
use crate::buffer::{
    all_fit, replayed, reverted, undoing_all_restores, Buf, Change,
};
use crate::editor::input::helpers::{
    is_plan, lines_shifted, recorded_step, shifted_lines, with_plan, with_planned,
};
use crate::editor::input::paste::{
    expanded, paste_done, pasted, rows_of, with_row, with_rows, BlockPaste,
};
use crate::editor::input::visual::{
    block_offsets, line_stretch, relined, restretched, retexted, selection_cut, selection_deleted,
    selection_transformed, transform_done, without_block, Transform,
};
use crate::editor::register::RegisterType;
use crate::editor::{after_col, char_range, range_offsets, selection_of};
use crate::editor::{ChangeToken, CursorPos, Ed, InputState, Mode};
use crate::indentation::IndentOptions;
use crate::lines::{line_content, offset_is, offset_of};
use vstd::prelude::*;

verus! {

/// The changes that lead from one buffer to another.
pub open spec fn changes_between(before: Buf, after: Buf) -> Seq<Change> {
    after.log.skip(before.log.len() as int)
}

/// The log of a buffer tells how its text came from that of an earlier one.
pub open spec fn logged(before: Buf, after: Buf) -> bool {
    let made = changes_between(before, after);
    &&& before.log.len() <= after.log.len()
    &&& after.log.take(before.log.len() as int) == before.log
    &&& all_fit(before.text, made)
    &&& replayed(before.text, made) == after.text
}

/// A command left the text alone, or it was recorded as one change that gives
/// the text back.
pub open spec fn undone_in_one_step(before: Ed, after: Ed) -> bool {
    ||| after.undo == before.undo && after.cur().text == before.cur().text
    ||| {
        &&& after.undo.len() == before.undo.len() + 1
        &&& after.undo.drop_last() == before.undo
        &&& after.undo.last().buffer == after.cur().id
        &&& reverted(after.cur().text, after.undo.last().changes) == before.cur().text
    }
}

proof fn nothing_is_logged(b: Buf)
    ensures
        logged(b, b),
{
    assert(b.log.take(b.log.len() as int) =~= b.log);
    assert(changes_between(b, b) =~= Seq::<Change>::empty());
}

proof fn change_is_logged(before: Buf, b: Buf, after: Buf, c: Change)
    requires
        logged(before, b),
        c.fits(b.text),
        after.text == c.applied(b.text),
        after.log == b.log.push(c),
    ensures
        logged(before, after),
{
    let n = before.log.len() as int;
    let made = changes_between(before, after);
    assert(after.log.take(n) =~= b.log.take(n));
    assert(made.drop_last() =~= changes_between(before, b));
    assert(made.last() == c);
}

proof fn insertion_is_logged(before: Buf, b: Buf, at: int, new: Seq<char>)
    requires
        logged(before, b),
        0 <= at <= b.text.len(),
    ensures
        logged(before, b.with_insert(at, new)),
{
    if !b.read_only && new.len() > 0 {
        change_is_logged(before, b, b.with_insert(at, new), Change::Insert(at, new));
    }
}

proof fn removal_is_logged(before: Buf, b: Buf, from: int, to: int)
    requires
        logged(before, b),
        0 <= from <= b.text.len(),
        0 <= to <= b.text.len(),
    ensures
        logged(before, b.without(from, to)),
{
    if !b.read_only && from < to {
        change_is_logged(
            before,
            b,
            b.without(from, to),
            Change::Delete(from, b.text.subrange(from, to)),
        );
    }
}

proof fn reindentation_is_logged(before: Buf, b: Buf, line: nat, new: Seq<char>)
    requires
        logged(before, b),
    ensures
        logged(before, b.reindented(line, new)),
{
    let current = crate::indentation::leading_of(line_content(b.text, line));
    let from = offset_of(b.text, line, 0);
    let to = offset_of(b.text, line, current.len());
    offset_is(b.text, line, 0);
    offset_is(b.text, line, current.len());
    removal_is_logged(before, b, from, to);
    insertion_is_logged(before, b.without(from, to), from, new);
}

proof fn planned_is_logged(before: Buf, b: Buf, line: nat, leading: nat, new: Seq<char>)
    requires
        logged(before, b),
    ensures
        logged(before, with_planned(b, line, leading, new)),
{
    let from = offset_of(b.text, line, 0);
    let to = offset_of(b.text, line, leading);
    offset_is(b.text, line, 0);
    offset_is(b.text, line, leading);
    removal_is_logged(before, b, from, to);
    let b1 = if leading > 0 {
        b.without(from, to)
    } else {
        b
    };
    offset_is(b1.text, line, 0);
    insertion_is_logged(before, b1, offset_of(b1.text, line, 0), new);
}

proof fn plan_is_logged(b: Buf, plan: Seq<PlannedIndent>, k: int)
    requires
        0 <= k <= plan.len(),
    ensures
        logged(b, with_plan(b, plan, k)),
    decreases k,
{
    nothing_is_logged(b);
    if k > 0 {
        plan_is_logged(b, plan, k - 1);
        let p = plan[k - 1];
        if let Some(new) = p.replacement {
            planned_is_logged(
                b,
                with_plan(b, plan, k - 1),
                p.line as nat,
                p.leading_chars as nat,
                new@,
            );
        }
    }
}

proof fn shifts_are_logged(
    before: Buf,
    b: Buf,
    line: int,
    end: int,
    o: IndentOptions,
    more: bool,
)
    requires
        logged(before, b),
    ensures
        logged(before, shifted_lines(b, line, end, o, more)),
    decreases end - line,
{
    if line < end && line >= 0 {
        let content = line_content(b.text, line as nat);
        let width = crate::indentation::leading_width_of(content, o.tab_width as int);
        let target = if more {
            crate::indentation::bounded(width + o.shift_width)
        } else {
            crate::editor::input::helpers::floor_sub(width, o.shift_width as int)
        };
        reindentation_is_logged(before, b, line as nat, o.encoded(target));
        let b1 = if content.len() == 0 {
            b
        } else {
            b.reindented(line as nat, o.encoded(target))
        };
        shifts_are_logged(before, b1, line + 1, end, o, more);
    }
}

proof fn row_is_logged(before: Buf, p: BlockPaste, target: int, col: int, row: Seq<char>)
    requires
        logged(before, p.buf),
    ensures
        logged(before, with_row(p, target, col, row).buf),
{
    let t = p.buf.text;
    let last = (crate::lines::line_count(t) - 1) as nat;
    let content = line_content(t, target as nat);
    let clusters = crate::unicode::graphemes_of(content).len() as int;
    let end = offset_of(t, last, line_content(t, last).len());
    let behind = offset_of(t, target as nat, content.len());
    let inside = offset_of(t, target as nat, crate::unicode::char_col_of(content, col as nat));
    offset_is(t, last, line_content(t, last).len());
    offset_is(t, target as nat, content.len());
    offset_is(t, target as nat, crate::unicode::char_col_of(content, col as nat));
    insertion_is_logged(
        before,
        p.buf,
        end,
        seq!['\n'] + crate::fmt::repeated(' ', col) + row,
    );
    insertion_is_logged(
        before,
        p.buf,
        behind,
        crate::fmt::repeated(' ', col - clusters) + row,
    );
    insertion_is_logged(before, p.buf, inside, row);
}

proof fn rows_are_logged(b: Buf, line: int, col: int, rows: Seq<Seq<char>>, k: int)
    ensures
        logged(b, with_rows(b, line, col, rows, k).buf),
    decreases k,
{
    nothing_is_logged(b);
    if 0 < k <= rows.len() {
        rows_are_logged(b, line, col, rows, k - 1);
        row_is_logged(
            b,
            with_rows(b, line, col, rows, k - 1),
            line + k - 1,
            col,
            rows[k - 1],
        );
    }
}

proof fn paste_is_logged(b: Buf, text: Seq<char>, reg_type: RegisterType, behind: bool)
    ensures
        logged(b, pasted(b, text, reg_type, behind).0),
{
    let line = b.line();
    nothing_is_logged(b);
    match reg_type {
        RegisterType::Block => {
            let col = if behind {
                after_col(b.col() as usize) as int
            } else {
                b.col()
            };
            rows_are_logged(b, line, col, rows_of(text), rows_of(text).len() as int);
        },
        RegisterType::Line => {
            let lines = crate::editor::input::paste::as_lines(text);
            let here = line_content(b.text, line as nat).len();
            offset_is(b.text, line as nat, 0);
            offset_is(b.text, 0, 0);
            offset_is(b.text, (line + 1) as nat, 0);
            offset_is(b.text, line as nat, here);
            insertion_is_logged(b, b, offset_of(b.text, line as nat, 0), lines);
            insertion_is_logged(b, b, offset_of(b.text, 0, 0), lines);
            insertion_is_logged(b, b, offset_of(b.text, (line + 1) as nat, 0), lines);
            insertion_is_logged(b, b, offset_of(b.text, line as nat, here), seq!['\n'] + lines);
        },
        RegisterType::Character => {
            let here = b.here();
            let clusters = crate::unicode::graphemes_of(here).len() as int;
            let at = if behind {
                crate::editor::input::helpers::least(after_col(b.col() as usize) as int, clusters)
            } else {
                b.col()
            };
            let col = crate::unicode::char_col_of(here, at as nat);
            offset_is(b.text, line as nat, col);
            insertion_is_logged(b, b, offset_of(b.text, line as nat, col), text);
        },
    }
}

proof fn block_is_logged(before: Buf, b: Buf, line: int, top: int, left: nat, right: usize)
    requires
        logged(before, b),
    ensures
        logged(before, without_block(b, line, top, left, right).0),
    decreases line - top + 1,
{
    if line < top || line < 0 {
    } else if line >= crate::lines::line_count(b.text) {
        block_is_logged(before, b, line - 1, top, left, right);
    } else {
        match block_offsets(b.text, line as nat, left, right) {
            Some((from, to)) => {
                let content = line_content(b.text, line as nat);
                let clusters = crate::unicode::graphemes_of(content).len();
                let last = if after_col(right) < clusters {
                    after_col(right)
                } else {
                    clusters
                };
                offset_is(b.text, line as nat, crate::unicode::char_col_of(content, left));
                offset_is(b.text, line as nat, crate::unicode::char_col_of(content, last));
                removal_is_logged(before, b, from, to);
                block_is_logged(before, b.without(from, to), line - 1, top, left, right);
            },
            None => block_is_logged(before, b, line - 1, top, left, right),
        }
    }
}

proof fn cut_is_logged(b: Buf, mode: Mode, start: (usize, usize), end: (usize, usize))
    ensures
        logged(b, selection_cut(b, mode, start, end).0),
{
    nothing_is_logged(b);
    match mode {
        Mode::VisualLine => {
            offset_is(b.text, start.0 as nat, 0);
            offset_is(b.text, after_col(end.0), 0);
            removal_is_logged(
                b,
                b,
                offset_of(b.text, start.0 as nat, 0),
                offset_of(b.text, after_col(end.0), 0),
            );
        },
        Mode::VisualBlock => {
            block_is_logged(b, b, end.0 as int, start.0 as int, start.1 as nat, end.1);
        },
        _ => {
            let r = char_range(b.text, start, end);
            let (from, to) = range_offsets(b.text, r);
            offset_is(b.text, r.start_line as nat, r.start_col.0 as nat);
            offset_is(b.text, r.end_line as nat, r.end_col.0 as nat);
            removal_is_logged(b, b, from, to);
        },
    }
}

proof fn stretch_is_logged(before: Buf, b: Buf, tr: Transform, from: int, to: int)
    requires
        logged(before, b),
        0 <= from <= b.text.len(),
        0 <= to <= b.text.len(),
    ensures
        logged(before, restretched(b, tr, from, to)),
{
    removal_is_logged(before, b, from, to);
    if from < to {
        insertion_is_logged(before, b.without(from, to), from, tr.of(b.cut(from, to)));
    }
}

/// The stretch of a line lies in the text.
proof fn line_stretch_is(t: Seq<char>, block: bool, line: nat, left: nat, right: usize)
    ensures
        0 <= line_stretch(t, block, line, left, right).0 <= t.len(),
        0 <= line_stretch(t, block, line, left, right).1 <= t.len(),
{
    let content = line_content(t, line);
    let clusters = crate::unicode::graphemes_of(content).len();
    let last = if after_col(right) < clusters {
        after_col(right)
    } else {
        clusters
    };
    offset_is(t, line, 0);
    offset_is(t, line, content.len());
    offset_is(t, line, crate::unicode::char_col_of(content, left));
    offset_is(t, line, crate::unicode::char_col_of(content, last));
}

proof fn lines_are_logged(
    before: Buf,
    b: Buf,
    tr: Transform,
    block: bool,
    line: int,
    last: int,
    left: nat,
    right: usize,
)
    requires
        logged(before, b),
    ensures
        logged(before, retexted(b, tr, block, line, last, left, right)),
    decreases last - line + 1,
{
    if line <= last && line >= 0 {
        let n = line as nat;
        let (from, to) = line_stretch(b.text, block, n, left, right);
        line_stretch_is(b.text, block, n, left, right);
        stretch_is_logged(before, b, tr, from, to);
        let b1 = relined(b, tr, block, n, left, right);
        lines_are_logged(before, b1, tr, block, line + 1, last, left, right);
    }
}

proof fn transform_is_logged(
    b: Buf,
    tr: Transform,
    mode: Mode,
    start: (usize, usize),
    end: (usize, usize),
)
    ensures
        logged(b, selection_transformed(b, tr, mode, start, end)),
{
    nothing_is_logged(b);
    match mode {
        Mode::VisualLine => lines_are_logged(
            b,
            b,
            tr,
            false,
            start.0 as int,
            end.0 as int,
            0,
            0,
        ),
        Mode::VisualBlock => lines_are_logged(
            b,
            b,
            tr,
            true,
            start.0 as int,
            end.0 as int,
            start.1 as nat,
            end.1,
        ),
        _ => {
            let r = char_range(b.text, start, end);
            let (from, to) = range_offsets(b.text, r);
            offset_is(b.text, r.start_line as nat, r.start_col.0 as nat);
            offset_is(b.text, r.end_line as nat, r.end_col.0 as nat);
            stretch_is_logged(b, b, tr, from, to);
        },
    }
}

proof fn recorded_is_undone(before: Ed, after: Ed, input: InputState, pos: CursorPos)
    requires
        recorded_step(before, after, input, pos),
        logged(before.cur(), after.cur()),
    ensures
        undone_in_one_step(before, after),
{
    let made = changes_between(before.cur(), after.cur());
    undoing_all_restores(before.cur().text, made);
    if made.len() > 0 {
        assert(after.undo.drop_last() =~= before.undo);
        assert(after.undo.last().changes == made);
    }
}

/// Deleting a selection is undone in one step.
pub proof fn deletion_is_undone(before: Ed, after: Ed, token: Option<ChangeToken>)
    requires
        selection_deleted(before, after, token),
    ensures
        undone_in_one_step(before, after),
{
    if let Some((start, end)) = selection_of(before) {
        let b = before.cur();
        cut_is_logged(b, before.input.mode, start, end);
        let buf = selection_cut(b, before.input.mode, start, end).0;
        if buf.log.len() > b.log.len() {
            let input = InputState {
                repeat: Some(
                    crate::editor::input::visual::cut_action(before.input.mode, start, end),
                ),
                pending_register: None,
                ..before.input
            };
            recorded_is_undone(before, after, input, crate::editor::pos_at(b.cursor));
        }
    }
}

/// A paste is undone in one step, however many copies it made.
pub proof fn paste_is_undone(
    before: Ed,
    after: Ed,
    text: Seq<char>,
    reg_type: RegisterType,
    count: usize,
    behind: bool,
)
    requires
        paste_done(before, after, text, reg_type, count, behind),
    ensures
        undone_in_one_step(before, after),
{
    if text.len() > 0 {
        let all = expanded(text, reg_type, count as nat);
        let buf = pasted(before.cur(), all, reg_type, behind).0;
        paste_is_logged(before.cur(), all, reg_type, behind);
        let input = InputState {
            repeat_register: before.input.pending_register,
            repeat: if buf.log.len() > before.cur().log.len() {
                Some(crate::editor::input::paste::paste_action(behind, count))
            } else {
                before.input.repeat
            },
            pending_register: None,
            ..before.input
        };
        recorded_is_undone(before, after, input, crate::editor::pos_at(before.cur().cursor));
    }
}

/// Changing the case of a selection, or replacing its characters, is undone in
/// one step.
pub proof fn transform_is_undone(before: Ed, after: Ed, tr: Transform)
    requires
        transform_done(before, after, tr),
    ensures
        undone_in_one_step(before, after),
{
    if let Some((start, end)) = selection_of(before) {
        transform_is_logged(before.cur(), tr, before.input.mode, start, end);
        recorded_is_undone(
            before,
            after,
            before.input,
            crate::editor::pos_at(before.cur().cursor),
        );
    }
}

/// Shifting lines to the right or to the left is undone in one step.
pub proof fn shift_is_undone(
    before: Ed,
    after: Ed,
    start: usize,
    end: int,
    pos: CursorPos,
    more: bool,
)
    requires
        lines_shifted(before, after, start, end, pos, more),
    ensures
        undone_in_one_step(before, after),
{
    let o = before.indent().norm();
    let b = shifted_lines(before.cur(), start as int, end, o, more);
    nothing_is_logged(before.cur());
    shifts_are_logged(before.cur(), before.cur(), start as int, end, o, more);
    if b.log.len() > before.cur().log.len() {
        let line_count = (end - start) as usize;
        let input = InputState {
            repeat: Some(
                if more {
                    crate::editor::RepeatAction::IndentLines { line_count, options: o }
                } else {
                    crate::editor::RepeatAction::DedentLines { line_count, options: o }
                },
            ),
            ..before.input
        };
        recorded_is_undone(before, after, input, pos);
    }
}

/// Giving lines their structural indentation is undone in one step, however
/// many lines changed.
pub proof fn reindent_is_undone(before: Ed, after: Ed, plan: Seq<PlannedIndent>, pos: CursorPos)
    requires
        with_plan(before.cur(), plan, plan.len() as int).moved(
            after.cur(),
            after.cur().line(),
            after.cur().col(),
        ),
        recorded_step(before, after, before.input, pos),
    ensures
        undone_in_one_step(before, after),
{
    plan_is_logged(before.cur(), plan, plan.len() as int);
    recorded_is_undone(before, after, before.input, pos);
}

/// Lines get the same indentation whether they are reindented alone or as part
/// of more lines: what surrounds them is always the whole document.
pub proof fn ranges_share_their_context(
    b: Buf,
    o: IndentOptions,
    one: Seq<PlannedIndent>,
    start: int,
    end: int,
    other: Seq<PlannedIndent>,
    from: int,
    to: int,
    line: int,
)
    requires
        0 <= start,
        0 <= from,
        is_plan(one, b, start, end, o),
        is_plan(other, b, from, to, o),
        start <= line < start + one.len(),
        from <= line < from + other.len(),
    ensures
        one[line - start].line == line,
        other[line - from].line == line,
        crate::fmt::opt_view(one[line - start].replacement) == crate::fmt::opt_view(
            other[line - from].replacement,
        ),
        one[line - start].leading_chars == other[line - from].leading_chars,
        one[line - start].cursor_col == other[line - from].cursor_col,
{
    let p = one[line - start];
    let q = other[line - from];
    assert(start + (line - start) == line);
    assert(from + (line - from) == line);
}

} // verus!
