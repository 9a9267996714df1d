//! Operations on the selection of a visual mode.
use crate::buffer::{Buf, Buffer};
use crate::editor::clipboard::ClipboardBackend;
use crate::editor::input::helpers::{floor_sub, least, record_since, recorded_step};
use crate::editor::register::RegisterType;
use crate::editor::routing::{no_register, stored};
use crate::editor::{
    after_col, char_range, pos_at, range_offsets, range_text, selection_of, yank_range, ChangeToken,
    Ed, Editor, InputState, Mode, RepeatAction,
};
use crate::fmt::{join, joined};
use crate::lines::{offset_is, line_content, line_count, line_start, offset_of};
use crate::text::{chars_of, slice_string};
use crate::unicode::{
    char_col_of, grapheme_count, grapheme_to_char_col, graphemes_of, views, CharCol, GraphemeCol,
};
use vstd::prelude::*;

verus! {

/// Where a row of a block selection starts and ends in the text; `None` where
/// the line is too short for the block.
pub open spec fn block_offsets(t: Seq<char>, line: nat, left: nat, right: usize) -> Option<
    (int, int),
> {
    let content = line_content(t, line);
    let clusters = graphemes_of(content).len();
    if left < clusters {
        Some(
            (
                offset_of(t, line, char_col_of(content, left)),
                offset_of(
                    t,
                    line,
                    char_col_of(
                        content,
                        if after_col(right) < clusters {
                            after_col(right)
                        } else {
                            clusters
                        },
                    ),
                ),
            ),
        )
    } else {
        None
    }
}

/// A buffer without a block, and the rows that were taken out, from the line
/// `line` up to `top`; the lowest row is taken out first.
pub open spec fn without_block(b: Buf, line: int, top: int, left: nat, right: usize) -> (
    Buf,
    Seq<Seq<char>>,
)
    decreases line - top + 1,
{
    if line < top || line < 0 {
        (b, Seq::empty())
    } else if line >= line_count(b.text) {
        without_block(b, line - 1, top, left, right)
    } else {
        match block_offsets(b.text, line as nat, left, right) {
            Some((from, to)) => {
                let (rest, rows) = without_block(b.without(from, to), line - 1, top, left, right);
                (rest, rows.push(b.cut(from, to)))
            },
            None => {
                let (rest, rows) = without_block(b, line - 1, top, left, right);
                (rest, rows.push(Seq::empty()))
            },
        }
    }
}

/// What deleting a selection makes of a buffer, the text it takes out and the
/// type of that text.
pub open spec fn selection_cut(
    b: Buf,
    mode: Mode,
    start: (usize, usize),
    end: (usize, usize),
) -> (Buf, Seq<char>, RegisterType) {
    match mode {
        Mode::VisualLine => {
            let from = offset_of(b.text, start.0 as nat, 0);
            let to = offset_of(b.text, after_col(end.0), 0);
            (b.without(from, to), b.cut(from, to), RegisterType::Line)
        },
        Mode::VisualBlock => {
            let (rest, rows) = without_block(
                b,
                end.0 as int,
                start.0 as int,
                start.1 as nat,
                end.1,
            );
            (rest, joined(rows, rows.len() as int, "\n"@), RegisterType::Block)
        },
        _ => {
            let (from, to) = range_offsets(b.text, char_range(b.text, start, end));
            (b.without(from, to), b.cut(from, to), RegisterType::Character)
        },
    }
}

/// Where the cursor goes after a selection was deleted.
pub open spec fn cut_cursor(b: Buf, mode: Mode, start: (usize, usize)) -> (int, int) {
    match mode {
        Mode::VisualLine => (least(start.0 as int, line_count(b.text) - 1), 0),
        Mode::VisualBlock => {
            let len = if start.0 < line_count(b.text) {
                line_content(b.text, start.0 as nat).len() as int
            } else {
                0
            };
            (
                start.0 as int,
                if len > 0 {
                    least(start.1 as int, len - 1)
                } else {
                    0
                },
            )
        },
        _ => (start.0 as int, start.1 as int),
    }
}

/// The operation that repeats the deletion of a selection.
pub open spec fn cut_action(mode: Mode, start: (usize, usize), end: (usize, usize)) -> RepeatAction {
    let lines = floor_sub(end.0 as int, start.0 as int);
    match mode {
        Mode::VisualLine => RepeatAction::DeleteVisualLine {
            line_count: plus_one(lines) as usize,
        },
        Mode::VisualBlock => RepeatAction::DeleteVisualBlock {
            line_count: plus_one(lines) as usize,
            width: plus_one(floor_sub(end.1 as int, start.1 as int)) as usize,
        },
        _ => RepeatAction::DeleteVisualChar {
            line_delta: lines as usize,
            offset_col: (if lines == 0 {
                floor_sub(after_col(end.1) as int, start.1 as int)
            } else {
                after_col(end.1) as int
            }) as usize,
        },
    }
}

pub open spec fn plus_one(n: int) -> int {
    crate::indentation::bounded(n + 1)
}

/// Takes out a row of a block selection.
fn cut_row(buffer: &mut Buffer, line: usize, left: usize, right: usize) -> (row: String)
    ensures
        match block_offsets(old(buffer).text(), line as nat, left as nat, right) {
            Some((from, to)) => final(buffer).model() == old(buffer).model().without(from, to)
                && row@ == old(buffer).model().cut(from, to),
            None => final(buffer).model() == old(buffer).model() && row@ == Seq::<char>::empty(),
        },
{
    let content = buffer.content(line);
    let clusters: usize = grapheme_count(content.as_str());
    if left >= clusters {
        return String::new();
    }
    let from = grapheme_to_char_col(content.as_str(), GraphemeCol(left));
    let next: usize = right.saturating_add(1);
    let last: usize = if next < clusters {
        next
    } else {
        clusters
    };
    let to = grapheme_to_char_col(content.as_str(), GraphemeCol(last));
    buffer.delete_range(line, from, line, to)
}

fn reverse_rows(rows: &Vec<String>) -> (out: Vec<String>)
    ensures
        views(out@) == views(rows@).reverse(),
{
    let mut out: Vec<String> = Vec::new();
    let mut k: usize = rows.len();
    while k > 0
        invariant
            k <= rows.len(),
            out.len() == rows.len() - k,
            forall|i: int|
                0 <= i < out.len() ==> (#[trigger] out@[i])@ == rows@[rows.len() - 1 - i]@,
        decreases k,
    {
        k -= 1;
        out.push(rows[k].clone());
    }
    proof {
        assert(views(out@) =~= views(rows@).reverse());
    }
    out
}

fn cut_block(buffer: &mut Buffer, top: usize, bottom: usize, left: usize, right: usize) -> (text:
    String)
    requires
        top <= bottom,
    ensures
        ({
            let (rest, rows) = without_block(
                old(buffer).model(),
                bottom as int,
                top as int,
                left as nat,
                right,
            );
            &&& final(buffer).model() == rest
            &&& text@ == joined(rows, rows.len() as int, "\n"@)
        }),
{
    let ghost goal = without_block(
        buffer.model(),
        bottom as int,
        top as int,
        left as nat,
        right,
    );
    let mut rows: Vec<String> = Vec::new();
    // `next` is one above the line to be cut next.
    let mut next: usize = bottom;
    let mut more = true;
    proof {
        assert(views(rows@).reverse() =~= Seq::<Seq<char>>::empty());
        assert(goal.1 + Seq::<Seq<char>>::empty() =~= goal.1);
    }
    while more
        invariant
            top <= next <= bottom,
            ({
                let (rest, above) = without_block(
                    buffer.model(),
                    if more {
                        next as int
                    } else {
                        top - 1
                    },
                    top as int,
                    left as nat,
                    right,
                );
                rest == goal.0 && above + views(rows@).reverse() == goal.1
            }),
        decreases
                if more {
                    next + 1
                } else {
                    0int
                },
    {
        let ghost b = buffer.model();
        if next < buffer.line_count() {
            let row = cut_row(buffer, next, left, right);
            let ghost before = views(rows@);
            let ghost r = row@;
            rows.push(row);
            proof {
                let above = without_block(
                    buffer.model(),
                    next - 1,
                    top as int,
                    left as nat,
                    right,
                ).1;
                assert(views(rows@) =~= before.push(r));
                assert(views(rows@).reverse() =~= seq![r] + before.reverse());
                assert(above + views(rows@).reverse() =~= above.push(r) + before.reverse());
            }
        }
        if next > top {
            next -= 1;
        } else {
            more = false;
        }
    }
    let ordered = reverse_rows(&rows);
    proof {
        let e = without_block(buffer.model(), top - 1, top as int, left as nat, right);
        assert(e.1 + views(rows@).reverse() =~= views(rows@).reverse());
    }
    join(&ordered, "\n")
}

/// What deleting the selection leaves, but for the registers.
pub open spec fn selection_deleted(e: Ed, after: Ed, token: Option<ChangeToken>) -> bool {
    match selection_of(e) {
        Some((start, end)) => {
            let b = e.cur();
            let (buf, text, reg_type) = selection_cut(b, e.input.mode, start, end);
            let (line, col) = cut_cursor(buf, e.input.mode, start);
            if buf.log.len() <= b.log.len() {
                after == e && token is None
            } else {
                &&& token == Some(ChangeToken(e.undo.len() as usize))
                &&& buf.moved(after.cur(), line, col)
                &&& recorded_step(
                    e,
                    after,
                    InputState {
                        repeat: Some(cut_action(e.input.mode, start, end)),
                        pending_register: None,
                        ..e.input
                    },
                    pos_at(b.cursor),
                )
            }
        },
        None => after == e && token is None,
    }
}

/// Whether deleting the selection changes the text.
pub open spec fn selection_cuts(e: Ed) -> bool {
    match selection_of(e) {
        Some((start, end)) => selection_cut(e.cur(), e.input.mode, start, end).0.log.len()
            > e.cur().log.len(),
        None => false,
    }
}

/// Deletes the selection, recorded as one change, and stores its text.
#[verifier::rlimit(60)]
pub fn delete_visual_selection_with_token<B: ClipboardBackend>(editor: &mut Editor<B>) -> (token:
    Option<ChangeToken>)
    requires
        old(editor).wf(),
    ensures
        final(editor).wf(),
        selection_deleted(old(editor).model(), final(editor).model(), token),
        selection_cuts(old(editor).model()) ==> ({
            let e = old(editor).model();
            let (start, end) = selection_of(e)->0;
            let (buf, text, reg_type) = selection_cut(e.cur(), e.input.mode, start, end);
            stored(
                old(editor).registers,
                final(editor).registers,
                e.input.pending_register,
                e.options.clipboard,
                text,
                reg_type,
                true,
            )
        }),
        !selection_cuts(old(editor).model()) ==> final(editor).registers == old(editor).registers,
{
    let ghost e = editor.model();
    let ghost b = editor.cur();
    let mode = editor.mode();
    let before = editor.cursor_position();
    let (start, end) = match editor.visual_selection() {
        Some(s) => s,
        None => return None,
    };
    let range = match editor.visual_character_range() {
        Some(r) => r,
        None => return None,
    };
    let version: usize = editor.buffer().version();
    let ghost cut = selection_cut(b, mode, start, end);
    let (text, reg_type): (String, RegisterType) = match mode {
        Mode::VisualLine => (
            editor.buffer_mut().delete_range(
                start.0,
                CharCol(0),
                end.0.saturating_add(1),
                CharCol(0),
            ),
            RegisterType::Line,
        ),
        Mode::VisualBlock => (
            cut_block(editor.buffer_mut(), start.0, end.0, start.1, end.1),
            RegisterType::Block,
        ),
        _ => (
            editor.buffer_mut().delete_range(
                range.start_line,
                range.start_col,
                range.end_line,
                range.end_col,
            ),
            RegisterType::Character,
        ),
    };
    proof {
        assert(editor.cur() == cut.0);
        assert(text@ == cut.1);
    }
    if editor.buffer().version() <= version {
        proof {
            cut_unchanged(b, mode, start, end);
            assert(editor.model().bufs =~= e.bufs);
        }
        return None;
    }
    match mode {
        Mode::VisualLine => {
            let last: usize = editor.buffer().line_count() - 1;
            let line: usize = if start.0 < last {
                start.0
            } else {
                last
            };
            editor.buffer_mut().set_position(line, GraphemeCol(0));
        },
        Mode::VisualBlock => {
            let len: usize = match editor.buffer().line_text(start.0) {
                Some(line) => line.as_str().unicode_len(),
                None => 0,
            };
            let col: usize = if len > 0 {
                if start.1 < len - 1 {
                    start.1
                } else {
                    len - 1
                }
            } else {
                0
            };
            editor.buffer_mut().set_position(start.0, GraphemeCol(col));
        },
        _ => editor.buffer_mut().set_position(start.0, GraphemeCol(start.1)),
    }
    let lines: usize = end.0.saturating_sub(start.0);
    let action = match mode {
        Mode::VisualLine => RepeatAction::DeleteVisualLine { line_count: lines.saturating_add(1) },
        Mode::VisualBlock => RepeatAction::DeleteVisualBlock {
            line_count: lines.saturating_add(1),
            width: end.1.saturating_sub(start.1).saturating_add(1),
        },
        _ => RepeatAction::DeleteVisualChar {
            line_delta: lines,
            offset_col: if lines == 0 {
                end.1.saturating_add(1).saturating_sub(start.1)
            } else {
                end.1.saturating_add(1)
            },
        },
    };
    let token = record_since(editor, version, before, Some(action));
    editor.delete_to_register_with_type(text, reg_type);
    proof {
        let f = editor.model();
        assert(f.bufs =~= e.bufs.update(e.current, f.cur()));
    }
    token
}

proof fn block_unchanged(b: Buf, line: int, top: int, left: nat, right: usize)
    ensures
        without_block(b, line, top, left, right).0.log.len() >= b.log.len(),
        without_block(b, line, top, left, right).0.log.len() == b.log.len() ==> without_block(
            b,
            line,
            top,
            left,
            right,
        ).0 == b,
    decreases line - top + 1,
{
    if line < top || line < 0 {
    } else if line >= line_count(b.text) {
        block_unchanged(b, line - 1, top, left, right);
    } else {
        match block_offsets(b.text, line as nat, left, right) {
            Some((from, to)) => block_unchanged(b.without(from, to), line - 1, top, left, right),
            None => block_unchanged(b, line - 1, top, left, right),
        }
    }
}

/// A deletion that makes no edit changes nothing.
proof fn cut_unchanged(b: Buf, mode: Mode, start: (usize, usize), end: (usize, usize))
    ensures
        selection_cut(b, mode, start, end).0.log.len() <= b.log.len() ==> selection_cut(
            b,
            mode,
            start,
            end,
        ).0 == b,
{
    block_unchanged(b, end.0 as int, start.0 as int, start.1 as nat, end.1);
}

/// Deletes the selection, recorded as one change, and stores its text.
pub fn delete_visual_selection<B: ClipboardBackend>(editor: &mut Editor<B>)
    requires
        old(editor).wf(),
    ensures
        final(editor).wf(),
        exists|token: Option<ChangeToken>| #[trigger]
            selection_deleted(old(editor).model(), final(editor).model(), token),
        selection_cuts(old(editor).model()) ==> ({
            let e = old(editor).model();
            let (start, end) = selection_of(e)->0;
            let (buf, text, reg_type) = selection_cut(e.cur(), e.input.mode, start, end);
            stored(
                old(editor).registers,
                final(editor).registers,
                e.input.pending_register,
                e.options.clipboard,
                text,
                reg_type,
                true,
            )
        }),
        !selection_cuts(old(editor).model()) ==> final(editor).registers == old(editor).registers,
{
    let token = delete_visual_selection_with_token(editor);
    proof {
        assert(selection_deleted(old(editor).model(), editor.model(), token));
    }
}

/// The rows of a block, of the lines from `top` up to before `line`.
pub open spec fn block_rows(t: Seq<char>, top: int, line: int, left: nat, right: usize) -> Seq<
    Seq<char>,
>
    decreases line - top,
{
    if line <= top || line <= 0 {
        Seq::empty()
    } else {
        let before = block_rows(t, top, line - 1, left, right);
        if line - 1 >= line_count(t) {
            before
        } else {
            before.push(
                match block_offsets(t, (line - 1) as nat, left, right) {
                    Some((from, to)) => if from < to {
                        t.subrange(from, to)
                    } else {
                        Seq::empty()
                    },
                    None => Seq::empty(),
                },
            )
        }
    }
}

/// The text that copying a selection takes, and its type.
pub open spec fn selection_copy(
    b: Buf,
    mode: Mode,
    start: (usize, usize),
    end: (usize, usize),
) -> (Seq<char>, RegisterType) {
    match mode {
        Mode::VisualLine => {
            let from = line_start(b.text, start.0 as nat);
            let to = if end.0 + 1 < line_count(b.text) {
                line_start(b.text, (end.0 + 1) as nat)
            } else {
                b.text.len() as int
            };
            (
                if from <= to {
                    b.text.subrange(from, to)
                } else {
                    Seq::empty()
                },
                RegisterType::Line,
            )
        },
        Mode::VisualBlock => {
            let rows = block_rows(b.text, start.0 as int, end.0 + 1, start.1 as nat, end.1);
            (joined(rows, rows.len() as int, "\n"@), RegisterType::Block)
        },
        _ => (range_text(b.text, char_range(b.text, start, end)), RegisterType::Character),
    }
}

pub(crate) fn block_text(buffer: &Buffer, top: usize, bottom: usize, left: usize, right: usize) -> (text:
    String)
    requires
        top <= bottom,
    ensures
        ({
            let rows = block_rows(
                buffer.text(),
                top as int,
                bottom + 1,
                left as nat,
                right,
            );
            text@ == joined(rows, rows.len() as int, "\n"@)
        }),
{
    let ghost t = buffer.text();
    let count: usize = buffer.line_count();
    let mut rows: Vec<String> = Vec::new();
    let mut line: usize = top;
    let stop: usize = if bottom < count {
        bottom + 1
    } else {
        count
    };
    proof {
        assert(views(rows@) =~= block_rows(t, top as int, top as int, left as nat, right));
    }
    while line < stop
        invariant
            t == buffer.text(),
            count == line_count(t),
            top <= line,
            line <= stop || line == top,
            stop <= count,
            stop <= bottom + 1,
            views(rows@) == block_rows(t, top as int, line as int, left as nat, right),
        decreases stop - line,
    {
        let content = buffer.content(line);
        let clusters: usize = grapheme_count(content.as_str());
        let ghost before = views(rows@);
        let row = if left < clusters {
            let from_col = grapheme_to_char_col(content.as_str(), GraphemeCol(left));
            let next: usize = right.saturating_add(1);
            let last: usize = if next < clusters {
                next
            } else {
                clusters
            };
            let to_col = grapheme_to_char_col(content.as_str(), GraphemeCol(last));
            let from: usize = buffer.offset(line, from_col);
            let to: usize = buffer.offset(line, to_col);
            if from < to {
                buffer.slice(from, to)
            } else {
                String::new()
            }
        } else {
            String::new()
        };
        let ghost r = row@;
        rows.push(row);
        line += 1;
        proof {
            assert(views(rows@) =~= before.push(r));
        }
    }
    proof {
        rows_behind(t, top as int, line as int, bottom + 1, left as nat, right);
    }
    join(&rows, "\n")
}

proof fn rows_behind(t: Seq<char>, top: int, line: int, stop: int, left: nat, right: usize)
    requires
        0 <= top <= line,
        line == stop || line >= line_count(t),
    ensures
        line <= stop ==> block_rows(t, top, line, left, right) == block_rows(
            t,
            top,
            stop,
            left,
            right,
        ),
    decreases stop - line,
{
    if line < stop {
        rows_behind(t, top, line, stop - 1, left, right);
    }
}

/// Copies the selection.
pub fn yank_visual_selection<B: ClipboardBackend>(editor: &mut Editor<B>)
    requires
        old(editor).wf(),
    ensures
        final(editor).wf(),
        match selection_of(old(editor).model()) {
            Some((start, end)) => {
                let e = old(editor).model();
                let (text, reg_type) = selection_copy(e.cur(), e.input.mode, start, end);
                &&& final(editor).model() == Ed { input: no_register(e.input), ..e }
                &&& stored(
                    old(editor).registers,
                    final(editor).registers,
                    e.input.pending_register,
                    e.options.clipboard,
                    text,
                    reg_type,
                    false,
                )
            },
            None => final(editor).model() == old(editor).model() && final(editor).registers == old(
                editor,
            ).registers,
        },
{
    let (start, end) = match editor.visual_selection() {
        Some(s) => s,
        None => return,
    };
    let range = match editor.visual_character_range() {
        Some(r) => r,
        None => return,
    };
    let (text, reg_type): (String, RegisterType) = match editor.mode() {
        Mode::VisualLine => {
            let b = editor.buffer();
            let from: usize = b.line_to_char(start.0);
            let count: usize = b.line_count();
            let to: usize = if end.0 < count - 1 {
                b.line_to_char(end.0 + 1)
            } else {
                b.len_chars()
            };
            let text = if from <= to {
                b.slice(from, to)
            } else {
                String::new()
            };
            (text, RegisterType::Line)
        },
        Mode::VisualBlock => (
            block_text(editor.buffer(), start.0, end.0, start.1, end.1),
            RegisterType::Block,
        ),
        _ => (yank_range(editor.buffer(), range), RegisterType::Character),
    };
    editor.yank_to_register_with_type(text, reg_type);
}

/// How the characters of a selection are changed.
#[derive(Debug, Clone, Copy, PartialEq, Eq, Structural)]
pub enum Transform {
    Upper,
    Lower,
    Toggle,
    Replace(char),
}

/// A text in upper case.
pub uninterp spec fn uppercase_of(text: Seq<char>) -> Seq<char>;

/// A text in lower case.
pub uninterp spec fn lowercase_of(text: Seq<char>) -> Seq<char>;

/// Whether a character is an upper-case letter.
pub uninterp spec fn uppercase(c: char) -> bool;

/// `str::to_uppercase`, by the Unicode tables that the name stands for.
#[verifier::external_body]
fn to_uppercase(text: &str) -> (s: String)
    ensures
        s@ == uppercase_of(text@),
{
    text.to_uppercase()
}

/// `str::to_lowercase`, by the Unicode tables that the name stands for.
#[verifier::external_body]
fn to_lowercase(text: &str) -> (s: String)
    ensures
        s@ == lowercase_of(text@),
{
    text.to_lowercase()
}

/// `char::is_uppercase`, by the Unicode tables that the name stands for.
#[verifier::external_body]
pub(crate) fn is_uppercase(c: char) -> (res: bool)
    ensures
        res == uppercase(c),
{
    c.is_uppercase()
}

/// The first `k` characters, each in the other case.
pub open spec fn toggled(t: Seq<char>, k: int) -> Seq<char>
    decreases k,
{
    if k <= 0 || k > t.len() {
        Seq::empty()
    } else {
        toggled(t, k - 1) + if uppercase(t[k - 1]) {
            lowercase_of(seq![t[k - 1]])
        } else {
            uppercase_of(seq![t[k - 1]])
        }
    }
}

impl Transform {
    pub open spec fn of(self, t: Seq<char>) -> Seq<char> {
        match self {
            Transform::Upper => uppercase_of(t),
            Transform::Lower => lowercase_of(t),
            Transform::Toggle => toggled(t, t.len() as int),
            Transform::Replace(c) => t.map_values(
                |x: char|
                    if x == '\n' {
                        '\n'
                    } else {
                        c
                    },
            ),
        }
    }

    fn apply(self, text: &str) -> (s: String)
        ensures
            s@ == self.of(text@),
    {
        match self {
            Transform::Upper => to_uppercase(text),
            Transform::Lower => to_lowercase(text),
            Transform::Toggle => {
                let cs = chars_of(text);
                let mut s = String::new();
                let mut k: usize = 0;
                while k < cs.len()
                    invariant
                        k <= cs.len(),
                        cs@ == text@,
                        s@ == toggled(text@, k as int),
                    decreases cs.len() - k,
                {
                    let one = slice_string(&cs, k, k + 1);
                    proof {
                        assert(one@ =~= seq![cs@[k as int]]);
                    }
                    let other = if is_uppercase(cs[k]) {
                        to_lowercase(one.as_str())
                    } else {
                        to_uppercase(one.as_str())
                    };
                    s.append(other.as_str());
                    k += 1;
                }
                s
            },
            Transform::Replace(c) => {
                let cs = chars_of(text);
                let mut s = String::new();
                let mut k: usize = 0;
                while k < cs.len()
                    invariant
                        k <= cs.len(),
                        cs@ == text@,
                        self == Transform::Replace(c),
                        s@ == self.of(text@.take(k as int)),
                    decreases cs.len() - k,
                {
                    s.push(
                        if cs[k] == '\n' {
                            '\n'
                        } else {
                            c
                        },
                    );
                    k += 1;
                    proof {
                        assert(s@ =~= self.of(text@.take(k as int)));
                    }
                }
                proof {
                    assert(text@.take(k as int) =~= text@);
                }
                s
            },
        }
    }
}

/// A stretch of the text was replaced by its transform.
pub open spec fn restretched(b: Buf, tr: Transform, from: int, to: int) -> Buf {
    if from < to {
        b.without(from, to).with_insert(from, tr.of(b.cut(from, to)))
    } else {
        b
    }
}

/// Where a line of a selection starts and ends in the text: the columns of a
/// block, or the whole line.
pub open spec fn line_stretch(t: Seq<char>, block: bool, line: nat, left: nat, right: usize) -> (
    int,
    int,
) {
    if line >= line_count(t) {
        (0, 0)
    } else if block {
        match block_offsets(t, line, left, right) {
            Some(stretch) => stretch,
            None => (0, 0),
        }
    } else {
        (offset_of(t, line, 0), offset_of(t, line, line_content(t, line).len()))
    }
}

/// A line of a selection was changed.
pub open spec fn relined(
    b: Buf,
    tr: Transform,
    block: bool,
    line: nat,
    left: nat,
    right: usize,
) -> Buf {
    let (from, to) = line_stretch(b.text, block, line, left, right);
    restretched(b, tr, from, to)
}

/// The lines of a selection from `line` on, changed one after the other.
pub open spec fn retexted(
    b: Buf,
    tr: Transform,
    block: bool,
    line: int,
    last: int,
    left: nat,
    right: usize,
) -> Buf
    decreases last - line + 1,
{
    if line > last || line < 0 {
        b
    } else {
        retexted(
            relined(b, tr, block, line as nat, left, right),
            tr,
            block,
            line + 1,
            last,
            left,
            right,
        )
    }
}

/// What changing the characters of a selection makes of a buffer. The
/// selection is the one that a deletion takes out.
pub open spec fn selection_transformed(
    b: Buf,
    tr: Transform,
    mode: Mode,
    start: (usize, usize),
    end: (usize, usize),
) -> Buf {
    match mode {
        Mode::VisualLine => retexted(b, tr, false, start.0 as int, end.0 as int, 0, 0),
        Mode::VisualBlock => retexted(
            b,
            tr,
            true,
            start.0 as int,
            end.0 as int,
            start.1 as nat,
            end.1,
        ),
        _ => {
            let (from, to) = range_offsets(b.text, char_range(b.text, start, end));
            restretched(b, tr, from, to)
        },
    }
}

fn transform_stretch(buffer: &mut Buffer, tr: Transform, from: usize, to: usize)
    requires
        from <= old(buffer).text().len(),
        to <= old(buffer).text().len(),
    ensures
        final(buffer).model() == restretched(old(buffer).model(), tr, from as int, to as int),
{
    if from < to && !buffer.is_read_only() {
        let gone = buffer.remove_between(from, to);
        let new = tr.apply(gone.as_str());
        let _ = buffer.insert_at(from, new.as_str());
    }
}

/// Changes a line of a selection.
fn transform_line(
    buffer: &mut Buffer,
    tr: Transform,
    block: bool,
    line: usize,
    left: usize,
    right: usize,
)
    ensures
        final(buffer).model() == relined(
            old(buffer).model(),
            tr,
            block,
            line as nat,
            left as nat,
            right,
        ),
{
    if line >= buffer.line_count() {
        return;
    }
    let content = buffer.content(line);
    let clusters: usize = grapheme_count(content.as_str());
    if block && left >= clusters {
        return;
    }
    let (first, last) = if block {
        let next: usize = right.saturating_add(1);
        let stop: usize = if next < clusters {
            next
        } else {
            clusters
        };
        (
            grapheme_to_char_col(content.as_str(), GraphemeCol(left)),
            grapheme_to_char_col(content.as_str(), GraphemeCol(stop)),
        )
    } else {
        (CharCol(0), CharCol(content.as_str().unicode_len()))
    };
    let from: usize = buffer.offset(line, first);
    let to: usize = buffer.offset(line, last);
    proof {
        offset_is(buffer.text(), line as nat, first.0 as nat);
        offset_is(buffer.text(), line as nat, last.0 as nat);
    }
    transform_stretch(buffer, tr, from, to);
}

fn transform_lines(
    buffer: &mut Buffer,
    tr: Transform,
    block: bool,
    first: usize,
    last: usize,
    left: usize,
    right: usize,
)
    requires
        first <= last,
    ensures
        final(buffer).model() == retexted(
            old(buffer).model(),
            tr,
            block,
            first as int,
            last as int,
            left as nat,
            right,
        ),
{
    let ghost goal = retexted(
        buffer.model(),
        tr,
        block,
        first as int,
        last as int,
        left as nat,
        right,
    );
    let mut line: usize = first;
    let mut more = true;
    while more
        invariant
            first <= line <= last,
            retexted(
                buffer.model(),
                tr,
                block,
                if more {
                    line as int
                } else {
                    last + 1
                },
                last as int,
                left as nat,
                right,
            ) == goal,
        decreases
                if more {
                    last - line + 1
                } else {
                    0
                },
    {
        transform_line(buffer, tr, block, line, left, right);
        if line < last {
            line += 1;
        } else {
            more = false;
        }
    }
}

/// The characters of the selection were changed, recorded as one change.
pub open spec fn transform_done(e: Ed, after: Ed, tr: Transform) -> bool {
    match selection_of(e) {
        Some((start, end)) => {
            &&& after.cur() == selection_transformed(e.cur(), tr, e.input.mode, start, end)
            &&& recorded_step(e, after, e.input, pos_at(e.cur().cursor))
        },
        None => after == e,
    }
}

/// Changes the characters of a selection of a buffer.
fn transform_buffer(
    buffer: &mut Buffer,
    tr: Transform,
    mode: Mode,
    start: (usize, usize),
    end: (usize, usize),
)
    requires
        start.0 <= end.0,
    ensures
        final(buffer).model() == selection_transformed(
            old(buffer).model(),
            tr,
            mode,
            start,
            end,
        ),
{
    let ghost t = buffer.text();
    match mode {
        Mode::VisualLine => transform_lines(buffer, tr, false, start.0, end.0, 0, 0),
        Mode::VisualBlock => transform_lines(buffer, tr, true, start.0, end.0, start.1, end.1),
        _ => {
            let first = buffer.content(start.0);
            let last = buffer.content(end.0);
            let c1 = grapheme_to_char_col(first.as_str(), GraphemeCol(start.1));
            let c2 = grapheme_to_char_col(last.as_str(), GraphemeCol(end.1.saturating_add(1)));
            let from: usize = buffer.offset(start.0, c1);
            let to: usize = buffer.offset(end.0, c2);
            proof {
                offset_is(t, start.0 as nat, c1.0 as nat);
                offset_is(t, end.0 as nat, c2.0 as nat);
            }
            transform_stretch(buffer, tr, from, to);
        },
    }
}

#[verifier::rlimit(60)]
fn transform_visual_selection<B: ClipboardBackend>(editor: &mut Editor<B>, tr: Transform)
    requires
        old(editor).wf(),
    ensures
        final(editor).wf(),
        final(editor).registers == old(editor).registers,
        transform_done(old(editor).model(), final(editor).model(), tr),
{
    let ghost e = editor.model();
    let ghost b = editor.cur();
    let before = editor.cursor_position();
    let (start, end) = match editor.visual_selection() {
        Some(s) => s,
        None => return,
    };
    let version: usize = editor.buffer().version();
    let mode = editor.mode();
    transform_buffer(editor.buffer_mut(), tr, mode, start, end);
    proof {
        transform_only_adds(b, tr, e.input.mode, start, end);
    }
    let _ = record_since(editor, version, before, None);
    proof {
        let f = editor.model();
        assert(f.bufs =~= e.bufs.update(e.current, f.cur()));
    }
}

proof fn transform_only_adds(
    b: Buf,
    tr: Transform,
    mode: Mode,
    start: (usize, usize),
    end: (usize, usize),
)
    ensures
        selection_transformed(b, tr, mode, start, end).log.len() >= b.log.len(),
        selection_transformed(b, tr, mode, start, end).cursor == b.cursor,
{
    retext_only_adds(b, tr, false, start.0 as int, end.0 as int, 0, 0);
    retext_only_adds(b, tr, true, start.0 as int, end.0 as int, start.1 as nat, end.1);
}

proof fn retext_only_adds(
    b: Buf,
    tr: Transform,
    block: bool,
    line: int,
    last: int,
    left: nat,
    right: usize,
)
    ensures
        retexted(b, tr, block, line, last, left, right).log.len() >= b.log.len(),
        retexted(b, tr, block, line, last, left, right).cursor == b.cursor,
    decreases last - line + 1,
{
    if line <= last && line >= 0 {
        let b1 = relined(b, tr, block, line as nat, left, right);
        retext_only_adds(b1, tr, block, line + 1, last, left, right);
    }
}

/// Puts the selection into upper case.
pub fn uppercase_visual_selection<B: ClipboardBackend>(editor: &mut Editor<B>)
    requires
        old(editor).wf(),
    ensures
        final(editor).wf(),
        final(editor).registers == old(editor).registers,
        transform_done(old(editor).model(), final(editor).model(), Transform::Upper),
{
    transform_visual_selection(editor, Transform::Upper);
}

/// Puts the selection into lower case.
pub fn lowercase_visual_selection<B: ClipboardBackend>(editor: &mut Editor<B>)
    requires
        old(editor).wf(),
    ensures
        final(editor).wf(),
        final(editor).registers == old(editor).registers,
        transform_done(old(editor).model(), final(editor).model(), Transform::Lower),
{
    transform_visual_selection(editor, Transform::Lower);
}

/// Replaces every character of the selection but its line feeds.
pub fn replace_visual_selection<B: ClipboardBackend>(editor: &mut Editor<B>, ch: char)
    requires
        old(editor).wf(),
    ensures
        final(editor).wf(),
        final(editor).registers == old(editor).registers,
        transform_done(old(editor).model(), final(editor).model(), Transform::Replace(ch)),
{
    transform_visual_selection(editor, Transform::Replace(ch));
}

/// Puts every character of the selection into the other case.
pub fn toggle_case_visual_selection<B: ClipboardBackend>(editor: &mut Editor<B>)
    requires
        old(editor).wf(),
    ensures
        final(editor).wf(),
        final(editor).registers == old(editor).registers,
        transform_done(old(editor).model(), final(editor).model(), Transform::Toggle),
{
    transform_visual_selection(editor, Transform::Toggle);
}

} // verus!
