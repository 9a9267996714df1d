//! Pasting.
use crate::buffer::{first_non_blank, Buf, Buffer};
use crate::editor::clipboard::ClipboardBackend;
use crate::editor::input::helpers::{floor_sub, least, record_since, recorded_step};
use crate::editor::register::RegisterType;
use crate::editor::routing::fetched;
use crate::editor::{pos_at, Ed, Editor, InputState, RepeatAction};
use crate::fmt::{repeat_char, repeated};
use crate::lines::{content_end, line_content, line_count, line_start_is, offset_of, raw_line_count};
use crate::text::chars_of;
use crate::unicode::{
    char_col_of, char_to_grapheme_col, grapheme_col_of, grapheme_count, grapheme_to_char_col,
    graphemes_of, views, CharCol, GraphemeCol,
};
use vstd::prelude::*;

verus! {

/// A text, `n` times.
pub open spec fn times(t: Seq<char>, n: nat) -> Seq<char>
    decreases n,
{
    if n == 0 {
        Seq::empty()
    } else {
        times(t, (n - 1) as nat) + t
    }
}

pub(crate) fn repeat_text(t: &str, n: usize) -> (s: String)
    ensures
        s@ == times(t@, n as nat),
{
    let mut s = String::new();
    let mut k: usize = 0;
    while k < n
        invariant
            k <= n,
            s@ == times(t@, k as nat),
        decreases n - k,
    {
        s.append(t);
        k += 1;
    }
    s
}

/// The rows of a text: what lies between its line feeds.
pub open spec fn rows_of(t: Seq<char>) -> Seq<Seq<char>> {
    Seq::new(raw_line_count(t), |i: int| line_content(t, i as nat))
}

/// The rows of a text: what lies between its line feeds.
pub(crate) fn split_rows(text: &str) -> (rows: Vec<String>)
    ensures
        views(rows@) == rows_of(text@),
        rows.len() > 0,
{
    let buffer = Buffer::new_from_str(text);
    let n: usize = buffer.raw_line_count();
    let mut rows: Vec<String> = Vec::new();
    let mut k: usize = 0;
    while k < n
        invariant
            k <= n == raw_line_count(text@),
            buffer.text() == text@,
            rows.len() == k,
            forall|i: int| 0 <= i < k ==> (#[trigger] rows@[i])@ == line_content(text@, i as nat),
        decreases n - k,
    {
        rows.push(buffer.content(k));
        k += 1;
    }
    proof {
        assert(views(rows@) =~= rows_of(text@));
    }
    rows
}

pub open spec fn ends_line(t: Seq<char>) -> bool {
    t.len() > 0 && t.last() == '\n'
}

/// The text with a final line feed.
pub open spec fn as_lines(t: Seq<char>) -> Seq<char> {
    if ends_line(t) {
        t
    } else {
        t.push('\n')
    }
}

fn make_lines(text: String) -> (s: String)
    ensures
        s@ == as_lines(text@),
{
    let n: usize = text.as_str().unicode_len();
    let mut s = text;
    if n > 0 && s.as_str().get_char(n - 1) == '\n' {
        return s;
    }
    s.push('\n');
    s
}

/// What a counted paste inserts: lines are copied as lines, and the rows of a
/// block grow sideways.
pub open spec fn expanded(t: Seq<char>, reg_type: RegisterType, count: nat) -> Seq<char> {
    if count <= 1 {
        t
    } else {
        match reg_type {
            RegisterType::Block => {
                let rows = rows_of(t).map_values(|r: Seq<char>| times(r, count));
                crate::fmt::joined(rows, rows.len() as int, "\n"@)
            },
            RegisterType::Line => times(as_lines(t), count),
            RegisterType::Character => times(t, count),
        }
    }
}

fn expand_paste_by_count(text: String, reg_type: RegisterType, count: usize) -> (s: String)
    ensures
        s@ == expanded(text@, reg_type, count as nat),
{
    if count <= 1 {
        return text;
    }
    match reg_type {
        RegisterType::Block => {
            let rows = split_rows(text.as_str());
            let mut grown: Vec<String> = Vec::new();
            let ghost all = rows_of(text@).map_values(|r: Seq<char>| times(r, count as nat));
            let mut k: usize = 0;
            while k < rows.len()
                invariant
                    k <= rows.len(),
                    grown.len() == k,
                    views(rows@) == rows_of(text@),
                    forall|i: int|
                        0 <= i < k ==> (#[trigger] grown@[i])@ == times(
                            rows_of(text@)[i],
                            count as nat,
                        ),
                decreases rows.len() - k,
            {
                proof {
                    assert(views(rows@)[k as int] == rows@[k as int]@);
                }
                grown.push(repeat_text(rows[k].as_str(), count));
                k += 1;
            }
            proof {
                assert(views(rows@).len() == rows.len());
                assert(views(grown@) =~= all);
            }
            crate::fmt::join(&grown, "\n")
        },
        RegisterType::Line => {
            let base = make_lines(text);
            repeat_text(base.as_str(), count)
        },
        RegisterType::Character => repeat_text(text.as_str(), count),
    }
}

/// Where the characters of a text end that is inserted at a line and column.
pub open spec fn end_of(line: int, col: int, t: Seq<char>, k: int) -> (int, int)
    decreases k,
{
    if k <= 0 || k > t.len() {
        (line, col)
    } else {
        let (l, c) = end_of(line, col, t, k - 1);
        if t[k - 1] == '\n' {
            (l + 1, 0)
        } else {
            (l, c + 1)
        }
    }
}

fn calculate_end_position(line: usize, col: usize, text: &str) -> (res: (usize, usize))
    requires
        line + text@.len() <= usize::MAX,
        col + text@.len() <= usize::MAX,
    ensures
        (res.0 as int, res.1 as int) == end_of(
            line as int,
            col as int,
            text@,
            text@.len() as int,
        ),
{
    let cs = chars_of(text);
    let mut l: usize = line;
    let mut c: usize = col;
    let mut k: usize = 0;
    while k < cs.len()
        invariant
            k <= cs.len(),
            cs@ == text@,
            line + text@.len() <= usize::MAX,
            col + text@.len() <= usize::MAX,
            l <= line + k,
            c <= col + k,
            (l as int, c as int) == end_of(line as int, col as int, text@, k as int),
        decreases cs.len() - k,
    {
        if cs[k] == '\n' {
            l += 1;
            c = 0;
        } else {
            c += 1;
        }
        k += 1;
    }
    (l, c)
}

/// A buffer after the first `k` rows of a block were put at a column of
/// consecutive lines, with the line of the last row put and how many clusters
/// that row has.
pub ghost struct BlockPaste {
    pub buf: Buf,
    pub line: int,
    pub len: int,
}

/// The row that a line gets: rows behind the last line make a line of their
/// own, and short lines are filled with blanks.
pub open spec fn with_row(p: BlockPaste, target: int, col: int, row: Seq<char>) -> BlockPaste {
    let t = p.buf.text;
    if target >= line_count(t) {
        let last = (line_count(t) - 1) as nat;
        let b = p.buf.with_insert(
            offset_of(t, last, line_content(t, last).len()),
            seq!['\n'] + repeated(' ', col) + row,
        );
        BlockPaste { buf: b, line: line_count(b.text) - 1, len: graphemes_of(row).len() as int }
    } else {
        let content = line_content(t, target as nat);
        let clusters = graphemes_of(content).len() as int;
        let b = if col > clusters {
            p.buf.with_insert(
                offset_of(t, target as nat, content.len()),
                repeated(' ', col - clusters) + row,
            )
        } else {
            p.buf.with_insert(
                offset_of(t, target as nat, char_col_of(content, col as nat)),
                row,
            )
        };
        BlockPaste { buf: b, line: target, len: graphemes_of(row).len() as int }
    }
}

pub open spec fn with_rows(b: Buf, line: int, col: int, rows: Seq<Seq<char>>, k: int) -> BlockPaste
    decreases k,
{
    if k <= 0 || k > rows.len() {
        BlockPaste { buf: b, line, len: 0 }
    } else {
        with_row(with_rows(b, line, col, rows, k - 1), line + k - 1, col, rows[k - 1])
    }
}

/// The first character of a line that the text shows that is no white space.
pub open spec fn text_col(t: Seq<char>, line: int) -> int {
    first_non_blank(line_content(t, line as nat), 0)
}

/// What a paste makes of a buffer, and where it puts the cursor.
pub open spec fn pasted(b: Buf, text: Seq<char>, reg_type: RegisterType, behind: bool) -> (
    Buf,
    int,
    int,
) {
    let line = b.line();
    match reg_type {
        RegisterType::Block => {
            let col = if behind {
                crate::editor::after_col(b.col() as usize) as int
            } else {
                b.col()
            };
            let p = with_rows(b, line, col, rows_of(text), rows_of(text).len() as int);
            (
                p.buf,
                p.line,
                if p.len > 0 {
                    crate::indentation::bounded(col + p.len - 1)
                } else {
                    col
                },
            )
        },
        RegisterType::Line => {
            let lines = as_lines(text);
            if !behind {
                let after = b.with_insert(offset_of(b.text, line as nat, 0), lines);
                (
                    after,
                    line,
                    grapheme_col_of(
                        line_content(after.text, line as nat),
                        text_col(after.text, line) as nat,
                    ) as int,
                )
            } else if line_count(b.text) == 1 && line_content(b.text, 0).len() == 0 {
                let after = b.with_insert(offset_of(b.text, 0, 0), lines);
                (
                    after,
                    0,
                    grapheme_col_of(
                        line_content(after.text, 0),
                        text_col(after.text, 0) as nat,
                    ) as int,
                )
            } else {
                let after = if content_end(b.text, line as nat) < b.text.len() {
                    b.with_insert(offset_of(b.text, (line + 1) as nat, 0), lines)
                } else {
                    b.with_insert(
                        offset_of(b.text, line as nat, line_content(b.text, line as nat).len()),
                        seq!['\n'] + lines,
                    )
                };
                (
                    after,
                    line + 1,
                    grapheme_col_of(
                        line_content(after.text, (line + 1) as nat),
                        text_col(after.text, line + 1) as nat,
                    ) as int,
                )
            }
        },
        RegisterType::Character => {
            let here = b.here();
            let clusters = graphemes_of(here).len() as int;
            let at = if behind {
                least(crate::editor::after_col(b.col() as usize) as int, clusters)
            } else {
                b.col()
            };
            let col = char_col_of(here, at as nat) as int;
            let after = b.with_insert(offset_of(b.text, line as nat, col as nat), text);
            let (end_line, end_col) = end_of(line, col, text, text.len() as int);
            (
                after,
                end_line,
                floor_sub(
                    grapheme_col_of(
                        line_content(after.text, end_line as nat),
                        end_col as nat,
                    ) as int,
                    1,
                ),
            )
        },
    }
}

fn paste_row(buffer: &mut Buffer, target: usize, col: usize, row: &str) -> (res: (usize, usize))
    ensures
        ({
            let before = BlockPaste { buf: old(buffer).model(), line: 0, len: 0 };
            with_row(before, target as int, col as int, row@) == BlockPaste {
                buf: final(buffer).model(),
                line: res.0 as int,
                len: res.1 as int,
            }
        }),
{
    let count: usize = buffer.line_count();
    let len: usize = grapheme_count(row);
    if target >= count {
        let last: usize = count - 1;
        let end: usize = buffer.line_content_len(last);
        let mut text = String::new();
        text.push('\n');
        text.append(repeat_char(' ', col).as_str());
        text.append(row);
        proof {
            assert(text@ =~= seq!['\n'] + repeated(' ', col as int) + row@);
        }
        let _ = buffer.insert_text_at(last, CharCol(end), text.as_str());
        return (buffer.line_count() - 1, len);
    }
    let content = buffer.content(target);
    let clusters: usize = grapheme_count(content.as_str());
    if col > clusters {
        let end: usize = content.as_str().unicode_len();
        let mut text = repeat_char(' ', col - clusters);
        text.append(row);
        let _ = buffer.insert_text_at(target, CharCol(end), text.as_str());
    } else {
        let at = grapheme_to_char_col(content.as_str(), GraphemeCol(col));
        let _ = buffer.insert_text_at(target, at, row);
    }
    (target, len)
}

proof fn row_ignores_last(p: BlockPaste, q: BlockPaste, target: int, col: int, row: Seq<char>)
    requires
        p.buf == q.buf,
    ensures
        with_row(p, target, col, row) == with_row(q, target, col, row),
{
}

fn paste_block(buffer: &mut Buffer, text: &str, behind: bool)
    requires
        old(buffer).model().line() + text@.len() + 2 <= usize::MAX,
    ensures
        ({
            let (after, line, col) = pasted(
                old(buffer).model(),
                text@,
                RegisterType::Block,
                behind,
            );
            after.moved(final(buffer).model(), line, col)
        }),
{
    let ghost b = buffer.model();
    let line: usize = buffer.cursor().line();
    let here_col: usize = buffer.cursor().col().0;
    let rows = split_rows(text);
    let ghost all = rows_of(text@);
    let col: usize = if behind {
        here_col.saturating_add(1)
    } else {
        here_col
    };
    let mut last_line: usize = line;
    let mut last_len: usize = 0;
    let mut k: usize = 0;
    proof {
        rows_fit(text@);
        assert(views(rows@).len() == rows.len());
    }
    while k < rows.len()
        invariant
            k <= rows.len(),
            views(rows@) == all,
            line + rows.len() <= usize::MAX,
            with_rows(b, line as int, col as int, all, k as int) == (BlockPaste {
                buf: buffer.model(),
                line: last_line as int,
                len: last_len as int,
            }),
        decreases rows.len() - k,
    {
        let ghost p = with_rows(b, line as int, col as int, all, k as int);
        proof {
            assert(views(rows@)[k as int] == rows@[k as int]@);
            row_ignores_last(
                p,
                BlockPaste { buf: buffer.model(), line: 0, len: 0 },
                line + k,
                col as int,
                rows@[k as int]@,
            );
        }
        let (l, n) = paste_row(buffer, line + k, col, rows[k].as_str());
        last_line = l;
        last_len = n;
        k += 1;
    }
    let new_col: usize = if last_len > 0 {
        col.saturating_add(last_len - 1)
    } else {
        col
    };
    buffer.set_position(last_line, GraphemeCol(new_col));
}

fn paste_lines(buffer: &mut Buffer, text: String, behind: bool)
    requires
        old(buffer).model().line() < usize::MAX,
    ensures
        ({
            let (after, line, col) = pasted(old(buffer).model(), text@, RegisterType::Line, behind);
            after.moved(final(buffer).model(), line, col)
        }),
{
    let line: usize = buffer.cursor().line();
    let lines = make_lines(text);
    let target: usize = if !behind {
        let _ = buffer.insert_text_at(line, CharCol(0), lines.as_str());
        line
    } else {
        let empty = buffer.line_count() == 1 && buffer.line_content_len(0) == 0;
        if empty {
            let _ = buffer.insert_text_at(0, CharCol(0), lines.as_str());
            0
        } else if buffer.line_end(line) < buffer.len_chars() {
            let _ = buffer.insert_text_at(line + 1, CharCol(0), lines.as_str());
            line + 1
        } else {
            let end: usize = buffer.line_content_len(line);
            let mut all = String::new();
            all.push('\n');
            all.append(lines.as_str());
            proof {
                assert(all@ =~= seq!['\n'] + lines@);
            }
            let _ = buffer.insert_text_at(line, CharCol(end), all.as_str());
            line + 1
        }
    };
    let at = buffer.first_non_blank_col(target);
    buffer.set_cursor_char_col(target, at);
}

fn paste_chars(buffer: &mut Buffer, text: &str, behind: bool)
    requires
        old(buffer).model().line() + text@.len() + 2 <= usize::MAX,
        old(buffer).text().len() + text@.len() <= usize::MAX,
    ensures
        ({
            let (after, line, col) = pasted(
                old(buffer).model(),
                text@,
                RegisterType::Character,
                behind,
            );
            after.moved(final(buffer).model(), line, col)
        }),
{
    let line: usize = buffer.cursor().line();
    let here_col: usize = buffer.cursor().col().0;
    let content = buffer.content(line);
    let clusters: usize = grapheme_count(content.as_str());
    let at: usize = if behind {
        let next: usize = here_col.saturating_add(1);
        if next < clusters {
            next
        } else {
            clusters
        }
    } else {
        here_col
    };
    let col = grapheme_to_char_col(content.as_str(), GraphemeCol(at));
    proof {
        line_start_is(buffer.text(), line as nat);
    }
    let _ = buffer.insert_text_at(line, col, text);
    let (end_line, end_col) = calculate_end_position(line, col.0, text);
    let end_content = buffer.content(end_line);
    let g = char_to_grapheme_col(end_content.as_str(), CharCol(end_col));
    buffer.set_position(end_line, GraphemeCol(g.0.saturating_sub(1)));
}

fn paste_into(buffer: &mut Buffer, text: String, reg_type: RegisterType, behind: bool)
    requires
        old(buffer).model().line() + text@.len() + 2 <= usize::MAX,
        old(buffer).text().len() + text@.len() <= usize::MAX,
    ensures
        ({
            let (after, line, col) = pasted(old(buffer).model(), text@, reg_type, behind);
            after.moved(final(buffer).model(), line, col)
        }),
{
    match reg_type {
        RegisterType::Block => paste_block(buffer, text.as_str(), behind),
        RegisterType::Line => paste_lines(buffer, text, behind),
        RegisterType::Character => paste_chars(buffer, text.as_str(), behind),
    }
}

/// A text has at most one row more than characters.
proof fn rows_fit(t: Seq<char>)
    ensures
        rows_of(t).len() <= t.len() + 1,
{
    breaks_bounded(t, 0);
}

proof fn breaks_bounded(t: Seq<char>, i: int)
    requires
        0 <= i <= t.len(),
    ensures
        crate::lines::breaks_from(t, i) <= t.len() - i,
    decreases t.len() - i,
{
    if i < t.len() {
        breaks_bounded(t, i + 1);
    }
}

pub open spec fn paste_action(behind: bool, count: usize) -> RepeatAction {
    if behind {
        RepeatAction::PasteAfter { count }
    } else {
        RepeatAction::PasteBefore { count }
    }
}

/// A paste of a text that was read from a register. Nothing is pasted where
/// the register was empty.
pub open spec fn paste_done(
    e: Ed,
    after: Ed,
    text: Seq<char>,
    reg_type: RegisterType,
    count: usize,
    behind: bool,
) -> bool {
    let cleared = InputState { pending_register: None, ..e.input };
    if text.len() == 0 {
        after == Ed { input: cleared, ..e }
    } else {
        let all = expanded(text, reg_type, count as nat);
        let (buf, line, col) = pasted(e.cur(), all, reg_type, behind);
        let changed = buf.log.len() > e.cur().log.len();
        &&& buf.moved(after.cur(), line, col)
        &&& recorded_step(
            e,
            after,
            InputState {
                repeat_register: e.input.pending_register,
                repeat: if changed {
                    Some(paste_action(behind, count))
                } else {
                    e.input.repeat
                },
                ..cleared
            },
            pos_at(e.cur().cursor),
        )
    }
}

/// The sizes of a paste can be counted.
pub open spec fn paste_fits(b: Buf, text: Seq<char>, reg_type: RegisterType, count: usize) -> bool {
    let n = expanded(text, reg_type, count as nat).len();
    b.line() + n + 2 <= usize::MAX && b.text.len() + n <= usize::MAX
}

proof fn paste_only_adds(b: Buf, text: Seq<char>, reg_type: RegisterType, behind: bool)
    ensures
        pasted(b, text, reg_type, behind).0.log.len() >= b.log.len(),
{
    if reg_type is Block {
        let col = if behind {
            crate::editor::after_col(b.col() as usize) as int
        } else {
            b.col()
        };
        rows_only_add(b, b.line(), col, rows_of(text), rows_of(text).len() as int);
    }
}

proof fn rows_only_add(b: Buf, line: int, col: int, rows: Seq<Seq<char>>, k: int)
    ensures
        with_rows(b, line, col, rows, k).buf.log.len() >= b.log.len(),
    decreases k,
{
    if 0 < k <= rows.len() {
        rows_only_add(b, line, col, rows, k - 1);
    }
}

/// Pastes a text of a type, `count` times, behind the cursor or before it.
/// Where the sizes cannot be counted, nothing is done and it says so.
#[verifier::rlimit(60)]
pub fn paste_text<B: ClipboardBackend>(
    editor: &mut Editor<B>,
    text: String,
    reg_type: RegisterType,
    count: usize,
    behind: bool,
    register: Option<char>,
) -> (done: bool)
    requires
        old(editor).wf(),
        old(editor).model().input.pending_register is None,
    ensures
        final(editor).wf(),
        final(editor).registers == old(editor).registers,
        done == (text@.len() == 0 || paste_fits(old(editor).cur(), text@, reg_type, count)),
        !done ==> final(editor).model() == old(editor).model(),
        done ==> paste_done(
            Ed {
                input: InputState {
                    pending_register: register,
                    ..old(editor).model().input
                },
                ..old(editor).model()
            },
            final(editor).model(),
            text@,
            reg_type,
            count,
            behind,
        ),
{
    let ghost e = editor.model();
    let ghost b = editor.cur();
    if text.as_str().unicode_len() == 0 {
        return true;
    }
    let all = expand_paste_by_count(text, reg_type, count);
    let n: usize = all.as_str().unicode_len();
    let line: usize = editor.buffer().cursor().line();
    let len: usize = editor.buffer().len_chars();
    if n > usize::MAX - 2 || line > usize::MAX - 2 - n || len > usize::MAX - n {
        return false;
    }
    let mut input = editor.input_state();
    input.repeat_register = register;
    editor.set_input_state(input);
    let before = editor.cursor_position();
    let version: usize = editor.buffer().version();
    proof {
        paste_only_adds(b, all@, reg_type, behind);
    }
    paste_into(editor.buffer_mut(), all, reg_type, behind);
    let action = if behind {
        RepeatAction::PasteAfter { count }
    } else {
        RepeatAction::PasteBefore { count }
    };
    let _ = record_since(editor, version, before, Some(action));
    proof {
        let f = editor.model();
        assert(f.bufs =~= e.bufs.update(e.current, f.cur()));
    }
    true
}

fn paste<B: ClipboardBackend>(editor: &mut Editor<B>, count: usize, behind: bool) -> (done: bool)
    requires
        old(editor).wf(),
    ensures
        final(editor).wf(),
        exists|text: Seq<char>, reg_type: RegisterType|
            {
                let e = old(editor).model();
                let fits = text.len() == 0 || paste_fits(e.cur(), text, reg_type, count);
                &&& #[trigger] fetched(
                    old(editor).registers,
                    final(editor).registers,
                    old(editor).model().input.pending_register,
                    old(editor).model().options.clipboard,
                    (text, reg_type),
                )
                &&& done == fits
                &&& fits ==> paste_done(e, final(editor).model(), text, reg_type, count, behind)
                &&& !fits ==> final(editor).model() == (Ed {
                    input: InputState { pending_register: None, ..e.input },
                    ..e
                })
            },
{
    let ghost e = editor.model();
    let register = editor.input_state().pending_register;
    let (text, reg_type) = editor.get_from_register_with_type();
    let ghost t = text@;
    let ghost mid = editor.model();
    proof {
        assert((Ed { input: InputState { pending_register: register, ..mid.input }, ..mid }) == e);
    }
    paste_text(editor, text, reg_type, count, behind, register)
}

/// Pastes behind the cursor; whether it could.
pub fn paste_after<B: ClipboardBackend>(editor: &mut Editor<B>, count: usize) -> (done: bool)
    requires
        old(editor).wf(),
    ensures
        final(editor).wf(),
        exists|text: Seq<char>, reg_type: RegisterType|
            {
                let e = old(editor).model();
                let fits = text.len() == 0 || paste_fits(e.cur(), text, reg_type, count);
                &&& #[trigger] fetched(
                    old(editor).registers,
                    final(editor).registers,
                    old(editor).model().input.pending_register,
                    old(editor).model().options.clipboard,
                    (text, reg_type),
                )
                &&& done == fits
                &&& fits ==> paste_done(e, final(editor).model(), text, reg_type, count, true)
                &&& !fits ==> final(editor).model() == (Ed {
                    input: InputState { pending_register: None, ..e.input },
                    ..e
                })
            },
{
    paste(editor, count, true)
}

/// Pastes before the cursor; whether it could.
pub fn paste_before<B: ClipboardBackend>(editor: &mut Editor<B>, count: usize) -> (done: bool)
    requires
        old(editor).wf(),
    ensures
        final(editor).wf(),
        exists|text: Seq<char>, reg_type: RegisterType|
            {
                let e = old(editor).model();
                let fits = text.len() == 0 || paste_fits(e.cur(), text, reg_type, count);
                &&& #[trigger] fetched(
                    old(editor).registers,
                    final(editor).registers,
                    old(editor).model().input.pending_register,
                    old(editor).model().options.clipboard,
                    (text, reg_type),
                )
                &&& done == fits
                &&& fits ==> paste_done(e, final(editor).model(), text, reg_type, count, false)
                &&& !fits ==> final(editor).model() == (Ed {
                    input: InputState { pending_register: None, ..e.input },
                    ..e
                })
            },
{
    paste(editor, count, false)
}

} // verus!
