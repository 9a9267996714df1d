//! Cursor movement and editing.
use crate::auto_indent::{opener_before, opening_delimiter_at_end, profile_for, shown_line};
use crate::buffer::{erased, position_of, typed, Buf, Buffer};
use crate::editor::clipboard::ClipboardBackend;
use crate::editor::{CursorPos, Ed, Editor, InputState, Mode, RepeatAction};
use crate::indentation::{
    bounded, indent_end, indent_end_is, leading_char_count, leading_of, leading_str, leading_width,
    leading_width_of, visual_width, width_of, IndentOptions,
};
use crate::lines::{
    content_end, line_content, line_count, line_start, line_start_is, offset_of, raw_line_count,
};
use crate::text::{chars_of, slice_string};
use crate::unicode::{
    alphanumeric, char_col_of, grapheme_col_of, grapheme_to_char_col, graphemes_of, is_alphanumeric,
    is_whitespace, whitespace, CharCol, GraphemeCol,
};
use vstd::prelude::*;

verus! {

/// Only the current buffer and the input state differ.
pub open spec fn input_step(before: Ed, after: Ed, input: InputState) -> bool {
    after == Ed { input, ..before.with_cur(after.cur()) }
}

/// Only the current buffer and the insert session differ, and the session
/// has taken in the buffer's new edits.
pub open spec fn session_step(before: Ed, after: Ed) -> bool {
    after == Ed {
        session: before.session + after.cur().log.skip(before.cur().log.len() as int),
        ..before.with_cur(after.cur())
    }
}

pub open spec fn no_count(input: InputState) -> InputState {
    InputState { count: None, ..input }
}

pub open spec fn count_of(input: InputState) -> int {
    match input.count {
        Some(n) => n as int,
        None => 1,
    }
}

/// How many clusters the cursor's line has.
pub open spec fn clusters_here(b: Buf) -> int {
    graphemes_of(b.here()).len() as int
}

pub open spec fn floor_sub(a: int, b: int) -> int {
    if a > b {
        a - b
    } else {
        0
    }
}

pub open spec fn least(a: int, b: int) -> int {
    if a < b {
        a
    } else {
        b
    }
}

pub fn move_left<B: ClipboardBackend>(editor: &mut Editor<B>)
    requires
        old(editor).wf(),
    ensures
        final(editor).wf(),
        final(editor).registers == old(editor).registers,
        input_step(old(editor).model(), final(editor).model(), no_count(old(editor).model().input)),
        ({
            let b = old(editor).cur();
            b.moved(
                final(editor).cur(),
                b.line(),
                floor_sub(b.col(), count_of(old(editor).model().input)),
            )
        }),
{
    let count: usize = editor.effective_count();
    let c = *editor.buffer().cursor();
    editor.buffer_mut().set_position(c.line(), GraphemeCol(c.col().0.saturating_sub(count)));
    editor.clear_count();
}

/// The rightmost column that the cursor may move to: any in a block, one
/// behind the text while inserting, else the last cluster.
pub open spec fn rightmost(mode: Mode, clusters: int) -> int {
    match mode {
        Mode::VisualBlock => usize::MAX as int,
        Mode::Insert => clusters,
        _ => floor_sub(clusters, 1),
    }
}

pub fn move_right<B: ClipboardBackend>(editor: &mut Editor<B>)
    requires
        old(editor).wf(),
    ensures
        final(editor).wf(),
        final(editor).registers == old(editor).registers,
        input_step(old(editor).model(), final(editor).model(), no_count(old(editor).model().input)),
        ({
            let b = old(editor).cur();
            let input = old(editor).model().input;
            b.moved(
                final(editor).cur(),
                b.line(),
                least(b.col() + count_of(input), rightmost(input.mode, clusters_here(b))),
            )
        }),
{
    let count: usize = editor.effective_count();
    let c = *editor.buffer().cursor();
    let len: usize = editor.buffer().line_graphemes(c.line());
    let most: usize = match editor.mode() {
        Mode::VisualBlock => usize::MAX,
        Mode::Insert => len,
        _ => len.saturating_sub(1),
    };
    let moved: usize = c.col().0.saturating_add(count);
    let col: usize = if moved < most {
        moved
    } else {
        most
    };
    editor.buffer_mut().set_position(c.line(), GraphemeCol(col));
    editor.clear_count();
}

/// The column on a line that the cursor tries to keep, as far as the line
/// reaches; in a block, wherever it is.
pub open spec fn goal_col(mode: Mode, goal: int, clusters: int) -> int {
    if mode is VisualBlock {
        goal
    } else {
        least(goal, floor_sub(clusters, 1))
    }
}

/// `after` is `before` but for the cursor, which is on a line at the column
/// that it tries to keep.
pub open spec fn line_changed(before: Buf, after: Buf, line: int, mode: Mode) -> bool {
    &&& after == Buf { cursor: after.cursor, ..before }
    &&& after.line() == line
    &&& after.col() == goal_col(
        mode,
        before.cursor.goal(),
        graphemes_of(line_content(before.text, line as nat)).len() as int,
    )
    &&& after.cursor.goal() == before.cursor.goal()
}

/// The input after a motion between lines: one that cannot move stops a macro.
pub open spec fn vertical_input(input: InputState, moved: bool) -> InputState {
    InputState { count: None, macro_abort: input.macro_abort || !moved, ..input }
}

pub fn move_up<B: ClipboardBackend>(editor: &mut Editor<B>)
    requires
        old(editor).wf(),
    ensures
        final(editor).wf(),
        final(editor).registers == old(editor).registers,
        ({
            let b = old(editor).cur();
            let input = old(editor).model().input;
            let line = floor_sub(b.line(), count_of(input));
            &&& line_changed(b, final(editor).cur(), line, input.mode)
            &&& input_step(
                old(editor).model(),
                final(editor).model(),
                vertical_input(input, line != b.line()),
            )
        }),
{
    let count: usize = editor.effective_count();
    let before: usize = editor.buffer().cursor().line();
    go_to_line(editor, before.saturating_sub(count), before);
}

pub fn move_down<B: ClipboardBackend>(editor: &mut Editor<B>)
    requires
        old(editor).wf(),
    ensures
        final(editor).wf(),
        final(editor).registers == old(editor).registers,
        ({
            let b = old(editor).cur();
            let input = old(editor).model().input;
            let line = least(b.line() + count_of(input), line_count(b.text) - 1);
            &&& line_changed(b, final(editor).cur(), line, input.mode)
            &&& input_step(
                old(editor).model(),
                final(editor).model(),
                vertical_input(input, line != b.line()),
            )
        }),
{
    let count: usize = editor.effective_count();
    let last: usize = editor.buffer().line_count() - 1;
    let before: usize = editor.buffer().cursor().line();
    let moved: usize = before.saturating_add(count);
    let line: usize = if moved < last {
        moved
    } else {
        last
    };
    go_to_line(editor, line, before);
}

fn go_to_line<B: ClipboardBackend>(editor: &mut Editor<B>, line: usize, before: usize)
    requires
        old(editor).wf(),
        before == old(editor).cur().line(),
    ensures
        final(editor).wf(),
        final(editor).registers == old(editor).registers,
        line_changed(
            old(editor).cur(),
            final(editor).cur(),
            line as int,
            old(editor).model().input.mode,
        ),
        input_step(
            old(editor).model(),
            final(editor).model(),
            vertical_input(old(editor).model().input, line != before),
        ),
{
    let ghost e = editor.model();
    let mut c = *editor.buffer().cursor();
    c.set_line(line);
    editor.buffer_mut().set_cursor(c);
    clamp_cursor_with_goal_column(editor);
    editor.clear_count();
    if line == before {
        editor.signal_macro_abort();
    }
    proof {
        assert(editor.model().bufs =~= e.bufs.update(e.current, editor.cur()));
    }
}

pub fn clamp_cursor_to_line<B: ClipboardBackend>(editor: &mut Editor<B>)
    requires
        old(editor).wf(),
    ensures
        final(editor).wf(),
        final(editor).registers == old(editor).registers,
        input_step(old(editor).model(), final(editor).model(), old(editor).model().input),
        ({
            let b = old(editor).cur();
            if b.col() < clusters_here(b) {
                final(editor).cur() == b
            } else {
                b.moved(final(editor).cur(), b.line(), floor_sub(clusters_here(b), 1))
            }
        }),
{
    let ghost e = editor.model();
    let c = *editor.buffer().cursor();
    let len: usize = editor.buffer().line_graphemes(c.line());
    if c.col().0 >= len {
        editor.buffer_mut().set_position(c.line(), GraphemeCol(len.saturating_sub(1)));
    }
    proof {
        assert(editor.model().bufs =~= e.bufs.update(e.current, editor.cur()));
    }
}

pub fn clamp_cursor_with_goal_column<B: ClipboardBackend>(editor: &mut Editor<B>)
    requires
        old(editor).wf(),
    ensures
        final(editor).wf(),
        final(editor).registers == old(editor).registers,
        input_step(old(editor).model(), final(editor).model(), old(editor).model().input),
        line_changed(
            old(editor).cur(),
            final(editor).cur(),
            old(editor).cur().line(),
            old(editor).model().input.mode,
        ),
{
    let mut c = *editor.buffer().cursor();
    let len: usize = editor.buffer().line_graphemes(c.line());
    let goal: usize = c.desired_col();
    let most: usize = len.saturating_sub(1);
    let col: usize = match editor.mode() {
        Mode::VisualBlock => goal,
        _ => if goal < most {
            goal
        } else {
            most
        },
    };
    c.set_col_preserve_desired(GraphemeCol(col));
    editor.buffer_mut().set_cursor(c);
}

/// Where the cursor is in the text.
pub open spec fn cursor_offset(b: Buf) -> int {
    offset_of(b.text, b.line() as nat, b.char_col() as nat)
}

pub fn insert_char<B: ClipboardBackend>(editor: &mut Editor<B>, c: char)
    requires
        old(editor).wf(),
    ensures
        final(editor).wf(),
        final(editor).registers == old(editor).registers,
        session_step(old(editor).model(), final(editor).model()),
        typed(
            old(editor).cur(),
            final(editor).cur(),
            cursor_offset(old(editor).cur()),
            seq![c],
        ),
{
    let line: usize = editor.buffer().cursor().line();
    let col = editor.buffer().cursor_char_col();
    let text = crate::fmt::repeat_char(c, 1);
    proof {
        assert(text@ =~= seq![c]);
    }
    let _ = type_text(editor, line, col, text.as_str());
}

/// Inserts a text, puts the cursor behind it, and adds the edit to the session.
fn type_text<B: ClipboardBackend>(
    editor: &mut Editor<B>,
    line: usize,
    col: CharCol,
    text: &str,
) -> (changed: bool)
    requires
        old(editor).wf(),
    ensures
        final(editor).wf(),
        final(editor).registers == old(editor).registers,
        session_step(old(editor).model(), final(editor).model()),
        typed(
            old(editor).cur(),
            final(editor).cur(),
            offset_of(old(editor).cur().text, line as nat, col.0 as nat),
            text@,
        ),
        changed == (!old(editor).cur().read_only && text@.len() > 0),
{
    let version: usize = editor.buffer().version();
    let changed = editor.buffer_mut().insert_text_at_positioning_cursor(line, col, text);
    let _ = editor.record_session(version);
    changed
}

/// Takes out a stretch, puts the cursor there, and adds the edit to the session.
fn erase_text<B: ClipboardBackend>(
    editor: &mut Editor<B>,
    start_line: usize,
    start_col: CharCol,
    end_line: usize,
    end_col: CharCol,
)
    requires
        old(editor).wf(),
    ensures
        final(editor).wf(),
        final(editor).registers == old(editor).registers,
        session_step(old(editor).model(), final(editor).model()),
        erased(
            old(editor).cur(),
            final(editor).cur(),
            offset_of(old(editor).cur().text, start_line as nat, start_col.0 as nat),
            offset_of(old(editor).cur().text, end_line as nat, end_col.0 as nat),
        ),
{
    let version: usize = editor.buffer().version();
    let _ = editor.buffer_mut().delete_range_positioning_cursor(
        start_line,
        start_col,
        end_line,
        end_col,
    );
    let _ = editor.record_session(version);
}

/// The indentation that a new line takes over from another: the same visual
/// width, or `extra` levels more.
pub open spec fn inherited(line: Seq<char>, extra: bool, o: IndentOptions) -> Seq<char> {
    let width = leading_width_of(line, o.tab_width as int);
    let target = if extra {
        bounded(width + o.shift_width)
    } else {
        width
    };
    if o.copy_indent {
        leading_of(line) + o.gap(width, target)
    } else {
        o.encoded(target)
    }
}

fn inherited_indent(line: &str, extra: bool, options: IndentOptions) -> (s: String)
    requires
        options.wf(),
    ensures
        s@ == inherited(line@, extra, options),
{
    let width: usize = leading_width(line, options.tab_width);
    let target: usize = if extra {
        width.saturating_add(options.shift_width)
    } else {
        width
    };
    if options.copy_indent {
        let mut s = leading_str(line);
        s.append(options.gap_text(width, target).as_str());
        s
    } else {
        options.encode_indent(target)
    }
}

/// What breaking a line at the cursor inserts.
pub ghost struct LineBreak {
    /// The indentation of the new line.
    pub indent: Seq<char>,
    /// The indentation of a closing delimiter that is pushed to a line of its own.
    pub closer: Option<Seq<char>>,
    /// Whether a line feed more is needed: at the end of a text that does not
    /// end with one, the first only ends the last line.
    pub doubled: bool,
}

pub open spec fn closing_of(c: char) -> Option<char> {
    if c == '{' {
        Some('}')
    } else if c == '(' {
        Some(')')
    } else if c == '[' {
        Some(']')
    } else {
        None
    }
}

pub open spec fn line_break_of(b: Buf, o: IndentOptions) -> LineBreak {
    let line = b.here();
    let c = b.char_col();
    let inside = c < indent_end(line, 0);
    let opener = opener_before(b.text, profile_for(b.path), b.line() as nat, line.take(c));
    let split = !inside && opener is Some && closing_of(opener->0) is Some && c < line.len()
        && line[c] == closing_of(opener->0)->0;
    LineBreak {
        indent: if inside {
            line.take(c)
        } else {
            inherited(line, opener is Some, o)
        },
        closer: if split {
            Some(inherited(line, false, o))
        } else {
            None
        },
        doubled: line_start(b.text, b.line() as nat) + c == b.text.len() && !(b.text.len() > 0
            && b.text.last() == '\n'),
    }
}

impl LineBreak {
    pub open spec fn text(self) -> Seq<char> {
        match self.closer {
            Some(base) => seq!['\n'] + self.indent + seq!['\n'] + base,
            None => seq!['\n'] + self.indent,
        }
    }
}

/// A line was broken at the cursor.
pub open spec fn line_broken(b: Buf, after: Buf, br: LineBreak) -> bool {
    let at = cursor_offset(b);
    if b.read_only {
        after == b
    } else if br.closer is Some {
        let b1 = b.with_insert(at, br.text());
        b1.moved(after, b.line() + 1, br.indent.len() as int)
    } else if br.doubled {
        let b1 = b.with_insert(at, br.text());
        let (line, col) = position_of(b1.text, at + br.text().len());
        let c = char_col_of(line_content(b1.text, line as nat), col as nat);
        let b2 = b1.with_insert(offset_of(b1.text, line as nat, c), seq!['\n']);
        b2.moved(
            after,
            line,
            grapheme_col_of(line_content(b2.text, line as nat), c) as int,
        )
    } else {
        typed(b, after, at, br.text())
    }
}

#[verifier::rlimit(60)]
pub fn insert_newline<B: ClipboardBackend>(editor: &mut Editor<B>)
    requires
        old(editor).wf(),
        old(editor).cur().line() < usize::MAX,
    ensures
        final(editor).wf(),
        final(editor).registers == old(editor).registers,
        session_step(old(editor).model(), final(editor).model()),
        line_broken(
            old(editor).cur(),
            final(editor).cur(),
            line_break_of(old(editor).cur(), old(editor).model().indent().norm()),
        ),
{
    let ghost e = editor.model();
    let ghost b = editor.cur();
    let options = editor.indent_options();
    let ghost br = line_break_of(b, options);
    let line_idx: usize = editor.buffer().cursor().line();
    let line = editor.buffer().content(line_idx);
    let col = editor.buffer().cursor_char_col();
    let cs = chars_of(line.as_str());
    let total: usize = editor.buffer().len_chars();
    let start: usize = editor.buffer().line_to_char(line_idx);
    proof {
        line_start_is(b.text, line_idx as nat);
        line_start_is(b.text, shown_line(b.text, line_idx as nat));
    }
    let ends = total > 0 && editor.buffer().char_at(total - 1) == '\n';
    let doubled = start + col.0 == total && !ends;
    let before = slice_string(&cs, 0, col.0);
    proof {
        assert(before@ =~= line@.take(col.0 as int));
        if line_idx >= line_count(b.text) {
            shown_past_end(b.text, line_idx as nat);
        }
    }
    let inside = col.0 < leading_char_count(line.as_str());
    let opener = opening_delimiter_at_end(editor.buffer(), line_idx, before.as_str());
    let opens = opener.is_some();
    let indent = if inside {
        before
    } else {
        inherited_indent(line.as_str(), opens, options)
    };
    let closer = match opener {
        Some('{') => Some('}'),
        Some('(') => Some(')'),
        Some('[') => Some(']'),
        _ => None,
    };
    let split = match closer {
        Some(c) => !inside && col.0 < cs.len() && cs[col.0] == c,
        None => false,
    };
    let mut text = String::new();
    text.push('\n');
    text.append(indent.as_str());
    let base = if split {
        let base = inherited_indent(line.as_str(), false, options);
        text.push('\n');
        text.append(base.as_str());
        Some(base)
    } else {
        None
    };
    proof {
        assert(indent@ == br.indent);
        assert(split == (br.closer is Some));
        assert(doubled == br.doubled);
        assert(text@ =~= br.text());
    }
    let changed = type_text(editor, line_idx, col, text.as_str());
    let ghost e1 = editor.model();
    if changed && split {
        let n: usize = indent.as_str().unicode_len();
        editor.buffer_mut().set_position(line_idx + 1, GraphemeCol(n));
    } else if changed && doubled {
        let line1: usize = editor.buffer().cursor().line();
        let col1 = editor.buffer().cursor_char_col();
        let feed = crate::fmt::repeat_char('\n', 1);
        proof {
            assert(feed@ =~= seq!['\n']);
        }
        let _ = type_text(editor, line1, col1, feed.as_str());
        editor.buffer_mut().set_cursor_char_col(line1, col1);
    }
    proof {
        let f = editor.model();
        assert(f.bufs =~= e.bufs.update(e.current, f.cur()));
        assert(f.session =~= e.session + f.cur().log.skip(b.log.len() as int));
    }
}

/// Lines that the text does not show hold nothing.
proof fn shown_past_end(t: Seq<char>, line: nat)
    requires
        line >= line_count(t),
    ensures
        line_content(t, line).len() == 0,
        line_start(t, line_count(t)) <= t.len(),
{
    line_start_is(t, line);
    line_start_is(t, line_count(t));
    if line < raw_line_count(t) {
        // The stretch behind a final line feed.
        assert(line + 1 == raw_line_count(t));
        assert(crate::lines::breaks_from(t, line_start(t, line)) == 0);
        crate::lines::line_break_is(t, line_start(t, line));
        if line_start(t, line) < t.len() {
            assert(t.last() == '\n');
            no_breaks_behind(t, line_start(t, line));
        }
    }
}

proof fn no_breaks_behind(t: Seq<char>, i: int)
    requires
        0 <= i < t.len(),
        crate::lines::breaks_from(t, i) == 0,
    ensures
        t.last() != '\n',
    decreases t.len() - i,
{
    if i + 1 < t.len() {
        no_breaks_behind(t, i + 1);
    } else {
        assert(crate::lines::breaks_from(t, i + 1) == 0);
    }
}

/// The end of the line above the cursor, and the start of the cursor's line.
pub open spec fn break_above(b: Buf) -> (int, int) {
    let above = (b.line() - 1) as nat;
    (
        offset_of(b.text, above, line_content(b.text, above).len()),
        offset_of(b.text, b.line() as nat, 0),
    )
}

/// What a backspace at the cursor leaves. In an indentation it goes back to a
/// soft tab stop; a tab that would overshoot it is written anew.
pub open spec fn backspaced(b: Buf, after: Buf, o: IndentOptions) -> bool {
    let line = b.line() as nat;
    let here = b.here();
    let c = b.char_col();
    let before = here.take(c);
    if b.col() == 0 && b.line() == 0 {
        after == b
    } else if b.col() == 0 {
        erased(b, after, break_above(b).0, break_above(b).1)
    } else if o.soft_tab_stop != 0 && c > 0 && indent_end(before, 0) == c {
        let from = offset_of(b.text, line, 0);
        let to = offset_of(b.text, line, c as nat);
        let width = IndentOptions::stop_before(
            o.soft_tab_stop as int,
            width_of(before, c, o.tab_width as int),
        );
        let new = o.encoded(width);
        let b1 = b.without(from, to);
        if b.read_only {
            after == b
        } else if new.len() == 0 {
            erased(b, after, from, to)
        } else {
            let at = offset_of(b1.text, line, 0);
            let b2 = b1.with_insert(at, new);
            let (l, k) = position_of(b2.text, at + new.len());
            b2.moved(after, l, k)
        }
    } else {
        erased(
            b,
            after,
            offset_of(b.text, line, char_col_of(here, (b.col() - 1) as nat)),
            offset_of(b.text, line, c as nat),
        )
    }
}

pub fn delete_char_before_cursor<B: ClipboardBackend>(editor: &mut Editor<B>)
    requires
        old(editor).wf(),
    ensures
        final(editor).wf(),
        final(editor).registers == old(editor).registers,
        session_step(old(editor).model(), final(editor).model()),
        backspaced(
            old(editor).cur(),
            final(editor).cur(),
            old(editor).model().indent().norm(),
        ),
{
    let ghost e = editor.model();
    let ghost b = editor.cur();
    proof {
        assert(e.bufs.update(e.current, b) =~= e.bufs);
        assert(e.session + b.log.skip(b.log.len() as int) =~= e.session);
    }
    let line: usize = editor.buffer().cursor().line();
    let col: usize = editor.buffer().cursor().col().0;
    if col == 0 && line == 0 {
        return;
    }
    if col == 0 {
        let above: usize = editor.buffer().line_content_len(line - 1);
        erase_text(editor, line - 1, CharCol(above), line, CharCol(0));
        return;
    }
    let content = editor.buffer().content(line);
    let c = editor.buffer().cursor_char_col();
    let cs = chars_of(content.as_str());
    let before = slice_string(&cs, 0, c.0);
    let options = editor.indent_options();
    let ghost text_before = b.here().take(c.0 as int);
    proof {
        assert(before@ =~= text_before);
        indent_end_is(text_before, 0);
    }
    if options.soft_tab_stop != 0 && c.0 > 0 && leading_char_count(before.as_str()) == c.0 {
        let width: usize = visual_width(before.as_str(), options.tab_width);
        let target: usize = options.previous_soft_tab_stop(width);
        let new = options.encode_indent(target);
        let version: usize = editor.buffer().version();
        let _ = editor.buffer_mut().delete_range_positioning_cursor(line, CharCol(0), line, c);
        let ghost b1 = editor.cur();
        if new.as_str().unicode_len() > 0 {
            let _ = editor.buffer_mut().insert_text_at_positioning_cursor(
                line,
                CharCol(0),
                new.as_str(),
            );
        }
        let _ = editor.record_session(version);
        proof {
            let f = editor.model();
            line_start_is(b.text, line as nat);
            assert(f.bufs =~= e.bufs.update(e.current, f.cur()));
            here_has_chars(b.text, line as nat, c.0 as nat);
        }
        return;
    }
    let previous = grapheme_to_char_col(content.as_str(), GraphemeCol(col - 1));
    erase_text(editor, line, previous, line, c);
}

/// A column inside a line's content lies behind the line's start.
proof fn here_has_chars(t: Seq<char>, line: nat, c: nat)
    requires
        0 < c <= line_content(t, line).len(),
    ensures
        offset_of(t, line, 0) < offset_of(t, line, c),
        line < raw_line_count(t),
        offset_of(t, line, 0) == line_start(t, line),
{
    line_start_is(t, line);
}

pub open spec fn word_char(c: char) -> bool {
    alphanumeric(c) || c == '_'
}

fn is_word_char(c: char) -> (res: bool)
    ensures
        res == word_char(c),
{
    is_alphanumeric(c) || c == '_'
}

/// The start of the white space that ends before `i`.
pub open spec fn blanks_start(t: Seq<char>, i: int) -> int
    decreases i,
{
    if 0 < i <= t.len() && whitespace(t[i - 1]) {
        blanks_start(t, i - 1)
    } else {
        i
    }
}

/// The start of the stretch of word characters, or of other characters, that
/// ends before `i`.
pub open spec fn run_start(t: Seq<char>, i: int, word: bool) -> int
    decreases i,
{
    if 0 < i <= t.len() && word_char(t[i - 1]) == word && (word || !whitespace(t[i - 1])) {
        run_start(t, i - 1, word)
    } else {
        i
    }
}

/// The start of the word before `c`, with the white space behind it.
pub open spec fn word_start_before(t: Seq<char>, c: int) -> int {
    let s = blanks_start(t, c);
    if s > 0 {
        run_start(t, s - 1, word_char(t[s - 1]))
    } else {
        s
    }
}

/// What deleting the word before the cursor leaves; at the start of a line it
/// joins the line to the one above.
pub open spec fn word_erased(b: Buf, after: Buf) -> bool {
    let line = b.line() as nat;
    if b.col() == 0 && b.line() == 0 {
        after == b
    } else if b.col() == 0 {
        erased(b, after, break_above(b).0, break_above(b).1)
    } else {
        erased(
            b,
            after,
            offset_of(b.text, line, word_start_before(b.here(), b.char_col()) as nat),
            offset_of(b.text, line, b.char_col() as nat),
        )
    }
}

pub fn delete_word_backward_insert<B: ClipboardBackend>(editor: &mut Editor<B>)
    requires
        old(editor).wf(),
    ensures
        final(editor).wf(),
        final(editor).registers == old(editor).registers,
        session_step(old(editor).model(), final(editor).model()),
        word_erased(old(editor).cur(), final(editor).cur()),
{
    let ghost e = editor.model();
    let ghost b = editor.cur();
    proof {
        assert(e.bufs.update(e.current, b) =~= e.bufs);
        assert(e.session + b.log.skip(b.log.len() as int) =~= e.session);
    }
    let line: usize = editor.buffer().cursor().line();
    let col: usize = editor.buffer().cursor().col().0;
    if col == 0 && line == 0 {
        return;
    }
    if col == 0 {
        let above: usize = editor.buffer().line_content_len(line - 1);
        erase_text(editor, line - 1, CharCol(above), line, CharCol(0));
        return;
    }
    let content = editor.buffer().content(line);
    let cs = chars_of(content.as_str());
    let c = editor.buffer().cursor_char_col();
    let ghost t = b.here();
    // White space goes with the word before it.
    let mut s: usize = c.0;
    while s > 0 && is_whitespace(cs[s - 1])
        invariant
            s <= c.0 <= cs.len(),
            cs@ == t,
            blanks_start(t, s as int) == blanks_start(t, c.0 as int),
        decreases s,
    {
        s -= 1;
    }
    if s > 0 {
        let word = is_word_char(cs[s - 1]);
        let ghost end = s - 1;
        s -= 1;
        while s > 0 && is_word_char(cs[s - 1]) == word && (word || !is_whitespace(cs[s - 1]))
            invariant
                s <= end < cs.len(),
                cs@ == t,
                run_start(t, s as int, word) == run_start(t, end, word),
            decreases s,
        {
            s -= 1;
        }
    }
    erase_text(editor, line, CharCol(s), line, c);
}

pub fn delete_to_line_start_insert<B: ClipboardBackend>(editor: &mut Editor<B>)
    requires
        old(editor).wf(),
    ensures
        final(editor).wf(),
        final(editor).registers == old(editor).registers,
        session_step(old(editor).model(), final(editor).model()),
        ({
            let b = old(editor).cur();
            let line = b.line() as nat;
            if b.col() == 0 {
                final(editor).cur() == b
            } else {
                erased(
                    b,
                    final(editor).cur(),
                    offset_of(b.text, line, 0),
                    offset_of(b.text, line, b.char_col() as nat),
                )
            }
        }),
{
    let ghost e = editor.model();
    let ghost b = editor.cur();
    proof {
        assert(e.bufs.update(e.current, b) =~= e.bufs);
        assert(e.session + b.log.skip(b.log.len() as int) =~= e.session);
    }
    let line: usize = editor.buffer().cursor().line();
    if editor.buffer().cursor().col().0 == 0 {
        return;
    }
    let c = editor.buffer().cursor_char_col();
    erase_text(editor, line, CharCol(0), line, c);
}

/// The column that keeps its distance from the text when an indentation of
/// `old` characters becomes one of `new`.
pub open spec fn shifted_col(col: int, old: int, new: int) -> int {
    bounded(floor_sub(col, old) + new)
}

/// The cursor's line was given an indentation, and the cursor kept its
/// distance from the text.
pub open spec fn indented(b: Buf, after: Buf, new: Seq<char>) -> bool {
    b.reindented(b.line() as nat, new).moved(
        after,
        b.line(),
        shifted_col(b.col(), indent_end(b.here(), 0), new.len() as int),
    )
}

fn set_line_indent<B: ClipboardBackend>(editor: &mut Editor<B>, new: &str)
    requires
        old(editor).wf(),
    ensures
        final(editor).wf(),
        final(editor).registers == old(editor).registers,
        session_step(old(editor).model(), final(editor).model()),
        indented(old(editor).cur(), final(editor).cur(), new@),
{
    let ghost e = editor.model();
    let line: usize = editor.buffer().cursor().line();
    let col: usize = editor.buffer().cursor().col().0;
    let content = editor.buffer().content(line);
    let before: usize = leading_char_count(content.as_str());
    let n: usize = new.unicode_len();
    let version: usize = editor.buffer().version();
    editor.buffer_mut().set_indent(line, new);
    let _ = editor.record_session(version);
    let shifted: usize = col.saturating_sub(before).saturating_add(n);
    editor.buffer_mut().set_position(line, GraphemeCol(shifted));
    proof {
        let f = editor.model();
        assert(f.bufs =~= e.bufs.update(e.current, f.cur()));
    }
}

pub fn indent_line_insert<B: ClipboardBackend>(editor: &mut Editor<B>)
    requires
        old(editor).wf(),
    ensures
        final(editor).wf(),
        final(editor).registers == old(editor).registers,
        session_step(old(editor).model(), final(editor).model()),
        ({
            let b = old(editor).cur();
            let o = old(editor).model().indent().norm();
            indented(
                b,
                final(editor).cur(),
                o.encoded(o.next_stop(leading_width_of(b.here(), o.tab_width as int))),
            )
        }),
{
    let options = editor.indent_options();
    let line: usize = editor.buffer().cursor().line();
    let content = editor.buffer().content(line);
    let width: usize = leading_width(content.as_str(), options.tab_width);
    let target: usize = options.next_indent_stop(width);
    set_line_indent(editor, options.encode_indent(target).as_str());
}

/// What taking back one level of indentation leaves; a line without
/// indentation, or past the text, is left alone.
pub open spec fn dedented(b: Buf, after: Buf, o: IndentOptions) -> bool {
    let width = leading_width_of(b.here(), o.tab_width as int);
    if b.line() >= line_count(b.text) || width == 0 {
        after == b
    } else {
        indented(
            b,
            after,
            o.encoded(IndentOptions::stop_before(o.shift_width as int, width)),
        )
    }
}

pub fn dedent_line_insert<B: ClipboardBackend>(editor: &mut Editor<B>)
    requires
        old(editor).wf(),
    ensures
        final(editor).wf(),
        final(editor).registers == old(editor).registers,
        session_step(old(editor).model(), final(editor).model()),
        dedented(
            old(editor).cur(),
            final(editor).cur(),
            old(editor).model().indent().norm(),
        ),
{
    let ghost e = editor.model();
    let ghost b = editor.cur();
    proof {
        assert(e.bufs.update(e.current, b) =~= e.bufs);
        assert(e.session + b.log.skip(b.log.len() as int) =~= e.session);
    }
    let options = editor.indent_options();
    let line: usize = editor.buffer().cursor().line();
    let content = match editor.buffer().line_text(line) {
        Some(content) => content,
        None => return,
    };
    let width: usize = leading_width(content.as_str(), options.tab_width);
    if width == 0 {
        return;
    }
    let target: usize = options.previous_indent_stop(width);
    set_line_indent(editor, options.encode_indent(target).as_str());
}

pub open spec fn all_blank(t: Seq<char>) -> bool {
    forall|i: int| 0 <= i < t.len() ==> whitespace(#[trigger] t[i])
}

/// A closing delimiter typed on an otherwise empty, indented line takes back
/// one level of indentation first.
pub fn electric_dedent_close_bracket<B: ClipboardBackend>(editor: &mut Editor<B>, c: char)
    requires
        old(editor).wf(),
    ensures
        final(editor).wf(),
        final(editor).registers == old(editor).registers,
        session_step(old(editor).model(), final(editor).model()),
        ({
            let b = old(editor).cur();
            if (c == '}' || c == ')' || c == ']') && b.line() < line_count(b.text) && b.char_col()
                > 0 && all_blank(b.here()) {
                dedented(b, final(editor).cur(), old(editor).model().indent().norm())
            } else {
                final(editor).cur() == b
            }
        }),
{
    let ghost e = editor.model();
    let ghost b = editor.cur();
    proof {
        assert(e.bufs.update(e.current, b) =~= e.bufs);
        assert(e.session + b.log.skip(b.log.len() as int) =~= e.session);
    }
    if !(c == '}' || c == ')' || c == ']') {
        return;
    }
    let line: usize = editor.buffer().cursor().line();
    let content = match editor.buffer().line_text(line) {
        Some(content) => content,
        None => return,
    };
    if editor.buffer().cursor_char_col().0 == 0 {
        return;
    }
    let cs = chars_of(content.as_str());
    let mut i: usize = 0;
    while i < cs.len()
        invariant
            i <= cs.len(),
            cs@ == b.here(),
            b == editor.cur(),
            e == editor.model(),
            editor.registers == old(editor).registers,
            editor.wf(),
            e == old(editor).model(),
            b == old(editor).cur(),
            session_step(e, e),
            forall|k: int| 0 <= k < i ==> whitespace(#[trigger] cs@[k]),
        decreases cs.len() - i,
    {
        if !is_whitespace(cs[i]) {
            proof {
                assert(!whitespace(b.here()[i as int]));
            }
            return;
        }
        i += 1;
    }
    dedent_line_insert(editor);
}

/// What opening a line below the cursor's inserts, and where.
pub open spec fn opened_below(b: Buf, o: IndentOptions) -> (int, Seq<char>, int) {
    let line = b.line() as nat;
    let content = if b.line() < line_count(b.text) {
        b.here()
    } else {
        Seq::empty()
    };
    let opener = opener_before(b.text, profile_for(b.path), line, content);
    let indent = inherited(content, opener is Some, o);
    if content_end(b.text, line) < b.text.len() {
        (offset_of(b.text, line + 1, 0), indent + seq!['\n'], indent.len() as int)
    } else {
        (
            offset_of(b.text, line, content.len()),
            seq!['\n'] + indent + seq!['\n'],
            indent.len() as int,
        )
    }
}

pub fn insert_line_below<B: ClipboardBackend>(editor: &mut Editor<B>) -> (opened: bool)
    requires
        old(editor).wf(),
        old(editor).cur().line() < usize::MAX,
    ensures
        final(editor).wf(),
        final(editor).registers == old(editor).registers,
        session_step(old(editor).model(), final(editor).model()),
        opened == !old(editor).cur().read_only,
        ({
            let b = old(editor).cur();
            let (at, text, col) = opened_below(b, old(editor).model().indent().norm());
            if b.read_only {
                final(editor).cur() == b
            } else {
                b.with_insert(at, text).moved(final(editor).cur(), b.line() + 1, col)
            }
        }),
{
    let ghost e = editor.model();
    let ghost b = editor.cur();
    let options = editor.indent_options();
    let line: usize = editor.buffer().cursor().line();
    let content = match editor.buffer().line_text(line) {
        Some(content) => content,
        None => String::new(),
    };
    proof {
        line_start_is(b.text, line as nat);
        if line >= line_count(b.text) {
            shown_past_end(b.text, line as nat);
            assert(content@ =~= Seq::<char>::empty());
        }
    }
    let total: usize = editor.buffer().len_chars();
    proof {
        assert(total == b.text.len());
        line_start_is(b.text, shown_line(b.text, line as nat));
    }
    let opener = opening_delimiter_at_end(editor.buffer(), line, content.as_str());
    let indent = inherited_indent(content.as_str(), opener.is_some(), options);
    let n: usize = indent.as_str().unicode_len();
    let terminated = editor.buffer().line_end(line) < total;
    let mut text = String::new();
    let (at_line, at_col): (usize, CharCol) = if terminated {
        (line + 1, CharCol(0))
    } else {
        text.push('\n');
        (line, CharCol(content.as_str().unicode_len()))
    };
    text.append(indent.as_str());
    text.push('\n');
    proof {
        assert(text@ =~= opened_below(b, options).1);
    }
    if !type_text(editor, at_line, at_col, text.as_str()) {
        return false;
    }
    editor.buffer_mut().set_position(line + 1, GraphemeCol(n));
    proof {
        let f = editor.model();
        assert(f.bufs =~= e.bufs.update(e.current, f.cur()));
    }
    true
}

pub fn insert_line_above<B: ClipboardBackend>(editor: &mut Editor<B>) -> (opened: bool)
    requires
        old(editor).wf(),
    ensures
        final(editor).wf(),
        final(editor).registers == old(editor).registers,
        session_step(old(editor).model(), final(editor).model()),
        opened == !old(editor).cur().read_only,
        ({
            let b = old(editor).cur();
            let indent = inherited(b.here(), false, old(editor).model().indent().norm());
            if b.read_only {
                final(editor).cur() == b
            } else {
                b.with_insert(
                    offset_of(b.text, b.line() as nat, 0),
                    indent + seq!['\n'],
                ).moved(final(editor).cur(), b.line(), indent.len() as int)
            }
        }),
{
    let ghost e = editor.model();
    let ghost b = editor.cur();
    let options = editor.indent_options();
    let line: usize = editor.buffer().cursor().line();
    let content = editor.buffer().content(line);
    let indent = inherited_indent(content.as_str(), false, options);
    let n: usize = indent.as_str().unicode_len();
    let mut text = indent;
    text.push('\n');
    proof {
        assert(text@ =~= inherited(b.here(), false, options) + seq!['\n']);
    }
    if !type_text(editor, line, CharCol(0), text.as_str()) {
        return false;
    }
    editor.buffer_mut().set_position(line, GraphemeCol(n));
    proof {
        let f = editor.model();
        assert(f.bufs =~= e.bufs.update(e.current, f.cur()));
    }
    true
}

/// Inserts a tab, or the blanks that stand for it.
pub fn insert_tab<B: ClipboardBackend>(editor: &mut Editor<B>)
    requires
        old(editor).wf(),
    ensures
        final(editor).wf(),
        final(editor).registers == old(editor).registers,
        session_step(old(editor).model(), final(editor).model()),
        ({
            let b = old(editor).cur();
            let o = old(editor).model().indent().norm();
            let before = b.here().take(b.char_col());
            typed(
                b,
                final(editor).cur(),
                cursor_offset(b),
                o.tab_at(width_of(before, before.len() as int, o.tab_width as int)),
            )
        }),
{
    let ghost b = editor.cur();
    let options = editor.indent_options();
    let line: usize = editor.buffer().cursor().line();
    let content = editor.buffer().content(line);
    let c = editor.buffer().cursor_char_col();
    let cs = chars_of(content.as_str());
    let before = slice_string(&cs, 0, c.0);
    proof {
        assert(before@ =~= b.here().take(b.char_col()));
    }
    let column: usize = visual_width(before.as_str(), options.tab_width);
    let text = options.tab_text(column);
    let _ = type_text(editor, line, c, text.as_str());
}

/// Puts the cursor inside the text: on its last line and on the last cluster
/// of its line, where it is behind them.
pub fn clamp_cursor_to_buffer<B: ClipboardBackend>(editor: &mut Editor<B>)
    requires
        old(editor).wf(),
    ensures
        final(editor).wf(),
        final(editor).registers == old(editor).registers,
        input_step(old(editor).model(), final(editor).model(), old(editor).model().input),
        ({
            let b = old(editor).cur();
            let f = final(editor).cur();
            let line = least(b.line(), line_count(b.text) - 1);
            let last = graphemes_of(line_content(b.text, line as nat)).len() as int;
            &&& f == Buf { cursor: f.cursor, ..b }
            &&& f.line() == line
            &&& f.col() == if b.col() < last {
                b.col()
            } else {
                floor_sub(last, 1)
            }
            &&& f.cursor.goal() == if b.col() < last {
                b.cursor.goal()
            } else {
                floor_sub(last, 1)
            }
        }),
{
    let ghost e = editor.model();
    let last: usize = editor.buffer().line_count() - 1;
    let mut c = *editor.buffer().cursor();
    if c.line() > last {
        c.set_line(last);
        editor.buffer_mut().set_cursor(c);
    }
    editor.buffer_mut().clamp_cursor_col();
    proof {
        let f = editor.model();
        assert(f.bufs =~= e.bufs.update(e.current, f.cur()));
    }
}

/// The selection, as it is remembered.
pub open spec fn remembered(e: Ed) -> Option<crate::editor::VisualSelection> {
    match crate::editor::selection_of(e) {
        Some((start, end)) => Some(
            crate::editor::VisualSelection { mode: e.input.mode, start, end },
        ),
        None => e.input.last_visual,
    }
}

/// Remembers the selection and ends it.
pub fn save_and_clear_visual<B: ClipboardBackend>(editor: &mut Editor<B>)
    requires
        old(editor).wf(),
    ensures
        final(editor).wf(),
        final(editor).registers == old(editor).registers,
        final(editor).model() == (Ed {
            input: InputState {
                last_visual: remembered(old(editor).model()),
                visual_start: None,
                ..old(editor).model().input
            },
            ..old(editor).model()
        }),
{
    let selection = editor.visual_selection();
    let mut input = editor.input_state();
    if let Some((start, end)) = selection {
        input.last_visual = Some(
            crate::editor::VisualSelection { mode: input.mode, start, end },
        );
    }
    input.visual_start = None;
    editor.set_input_state(input);
}

/// Ends a visual mode and remembers its selection.
pub fn exit_visual_mode_to_normal<B: ClipboardBackend>(editor: &mut Editor<B>)
    requires
        old(editor).wf(),
    ensures
        final(editor).wf(),
        final(editor).registers == old(editor).registers,
        final(editor).model() == (Ed {
            input: InputState {
                last_visual: remembered(old(editor).model()),
                visual_start: None,
                visual_block_dollar: false,
                pending_register: None,
                mode: Mode::Normal,
                ..old(editor).model().input
            },
            ..old(editor).model()
        }),
{
    save_and_clear_visual(editor);
    let mut input = editor.input_state();
    input.visual_block_dollar = false;
    input.pending_register = None;
    input.mode = Mode::Normal;
    editor.set_input_state(input);
}

/// The text from the cursor's column to the end of its line.
pub fn yank_to_end_of_line(buffer: &Buffer) -> (s: String)
    ensures
        s@ == ({
            let b = buffer.model();
            if b.line() < line_count(b.text) && b.char_col() < b.here().len() {
                b.here().skip(b.char_col())
            } else {
                Seq::empty()
            }
        }),
{
    let line: usize = buffer.cursor().line();
    let col: usize = buffer.cursor_char_col().0;
    if line >= buffer.line_count() {
        return String::new();
    }
    proof {
        line_start_is(buffer.text(), line as nat);
    }
    let start: usize = buffer.line_to_char(line);
    let end: usize = buffer.line_end(line);
    if col >= end - start {
        return String::new();
    }
    let s = buffer.slice(start + col, end);
    proof {
        assert(s@ =~= buffer.model().here().skip(col as int));
    }
    s
}

/// The text of lines from the cursor's on, with a final line feed.
pub open spec fn yanked_lines(b: Buf, count: int) -> Seq<char> {
    let n = line_count(b.text) as int;
    let end = least(bounded(b.line() + count), n);
    if b.line() >= n {
        Seq::empty()
    } else {
        let from = line_start(b.text, b.line() as nat);
        let to = if end < n {
            line_start(b.text, end as nat)
        } else {
            b.text.len() as int
        };
        let s = b.text.subrange(from, to);
        if s.len() > 0 && s.last() == '\n' {
            s
        } else {
            s.push('\n')
        }
    }
}

/// Lines from the cursor's on; their text always ends with a line feed.
pub fn yank_line(buffer: &Buffer, count: usize) -> (s: String)
    ensures
        s@ == yanked_lines(buffer.model(), count as int),
{
    let n: usize = buffer.line_count();
    let line: usize = buffer.cursor().line();
    let moved: usize = line.saturating_add(count);
    let end: usize = if moved < n {
        moved
    } else {
        n
    };
    if line >= n {
        return String::new();
    }
    proof {
        line_start_is(buffer.text(), line as nat);
        crate::lines::line_starts_grow(buffer.text(), line as nat, end as nat);
    }
    let from: usize = buffer.line_to_char(line);
    let to: usize = if end < n {
        buffer.line_to_char(end)
    } else {
        buffer.len_chars()
    };
    let mut s = buffer.slice(from, to);
    if to > from && buffer.char_at(to - 1) == '\n' {
        proof {
            assert(s@.last() == '\n');
        }
        return s;
    }
    proof {
        if s@.len() > 0 {
            assert(s@.last() == buffer.text()[to - 1]);
        }
    }
    s.push('\n');
    s
}

/// A line edit of an auto-indent operation was made.
pub open spec fn with_planned(b: Buf, line: nat, leading: nat, new: Seq<char>) -> Buf {
    let b1 = if leading > 0 {
        b.without(offset_of(b.text, line, 0), offset_of(b.text, line, leading))
    } else {
        b
    };
    if new.len() > 0 {
        b1.with_insert(offset_of(b1.text, line, 0), new)
    } else {
        b1
    }
}

/// The first `k` line edits of a plan were made.
pub open spec fn with_plan(b: Buf, plan: Seq<crate::auto_indent::PlannedIndent>, k: int) -> Buf
    decreases k,
{
    if k <= 0 || k > plan.len() {
        b
    } else {
        let before = with_plan(b, plan, k - 1);
        let p = plan[k - 1];
        match p.replacement {
            Some(new) => with_planned(before, p.line as nat, p.leading_chars as nat, new@),
            None => before,
        }
    }
}

/// How many of the first `k` planned lines get another indentation.
pub open spec fn planned_changes(plan: Seq<crate::auto_indent::PlannedIndent>, k: int) -> nat
    decreases k,
{
    if k <= 0 || k > plan.len() {
        0
    } else {
        planned_changes(plan, k - 1) + if plan[k - 1].replacement is Some {
            1nat
        } else {
            0nat
        }
    }
}

fn apply_auto_indent_plan(buffer: &mut Buffer, plan: &Vec<crate::auto_indent::PlannedIndent>) -> (n:
    usize)
    ensures
        final(buffer).model() == with_plan(old(buffer).model(), plan@, plan.len() as int),
        n == planned_changes(plan@, plan.len() as int),
{
    let ghost b = buffer.model();
    let mut n: usize = 0;
    let mut k: usize = 0;
    while k < plan.len()
        invariant
            k <= plan.len(),
            n <= k,
            buffer.model() == with_plan(b, plan@, k as int),
            n == planned_changes(plan@, k as int),
        decreases plan.len() - k,
    {
        let p = &plan[k];
        if let Some(new) = &p.replacement {
            if p.leading_chars > 0 {
                let _ = buffer.delete_range(p.line, CharCol(0), p.line, CharCol(p.leading_chars));
            }
            if new.as_str().unicode_len() > 0 {
                let _ = buffer.insert_text_at(p.line, CharCol(0), new.as_str());
            }
            n += 1;
        }
        k += 1;
    }
    n
}

/// A plan gives the lines of a range their structural indentation.
pub open spec fn is_plan(
    plan: Seq<crate::auto_indent::PlannedIndent>,
    b: Buf,
    start: int,
    end: int,
    o: IndentOptions,
) -> bool {
    let last = least(end, line_count(b.text) as int);
    &&& plan.len() == floor_sub(last, start)
    &&& forall|i: int|
        0 <= i < plan.len() ==> crate::auto_indent::is_planned(
            #[trigger] plan[i],
            b.text,
            profile_for(b.path),
            o,
            (start + i) as nat,
        )
}

/// Gives lines their structural indentation; how many changed.
pub fn auto_indent_lines(
    buffer: &mut Buffer,
    start_line: usize,
    end_line: usize,
    options: IndentOptions,
) -> (n: usize)
    ensures
        exists|plan: Seq<crate::auto_indent::PlannedIndent>|
            {
                &&& #[trigger] is_plan(
                    plan,
                    old(buffer).model(),
                    start_line as int,
                    end_line as int,
                    options.norm(),
                )
                &&& final(buffer).model() == with_plan(
                    old(buffer).model(),
                    plan,
                    plan.len() as int,
                )
                &&& n == planned_changes(plan, plan.len() as int)
            },
{
    let plan = crate::auto_indent::plan(buffer, start_line, end_line, options);
    proof {
        assert(is_plan(
            plan@,
            buffer.model(),
            start_line as int,
            end_line as int,
            options.norm(),
        ));
    }
    apply_auto_indent_plan(buffer, &plan)
}

/// Only the current buffer differs, and its new edits, if there are any, were
/// recorded as one change.
pub open spec fn recorded_step(before: Ed, after: Ed, input: InputState, pos: CursorPos) -> bool {
    let made = after.cur().log.skip(before.cur().log.len() as int);
    after == Ed {
        undo: if made.len() > 0 {
            before.undo.push(
                crate::editor::Recorded {
                    buffer: after.cur().id,
                    changes: made,
                    before: pos,
                    after: crate::editor::pos_at(after.cur().cursor),
                },
            )
        } else {
            before.undo
        },
        input,
        ..before.with_cur(after.cur())
    }
}

/// Records the edits made since a version; whether there were any.
pub(crate) fn record_since<B: ClipboardBackend>(
    editor: &mut Editor<B>,
    version: usize,
    cursor_before: CursorPos,
    action: Option<RepeatAction>,
) -> (token: Option<crate::editor::ChangeToken>)
    requires
        old(editor).wf(),
        version <= old(editor).cur().log.len(),
    ensures
        final(editor).wf(),
        final(editor).registers == old(editor).registers,
        ({
            let e = old(editor).model();
            let made = e.cur().log.skip(version as int);
            &&& token == if made.len() > 0 {
                Some(crate::editor::ChangeToken(e.undo.len() as usize))
            } else {
                None
            }
            &&& final(editor).model() == if made.len() > 0 {
                Ed {
                    undo: e.undo.push(
                        crate::editor::Recorded {
                            buffer: e.cur().id,
                            changes: made,
                            before: cursor_before,
                            after: crate::editor::pos_at(e.cur().cursor),
                        },
                    ),
                    input: InputState {
                        repeat: if action is Some {
                            action
                        } else {
                            e.input.repeat
                        },
                        ..e.input
                    },
                    ..e
                }
            } else {
                e
            }
        }),
{
    if editor.buffer().version() <= version {
        return None;
    }
    let edits = editor.buffer().edits_from(version);
    let after = editor.cursor_position();
    let token = editor.push_recorded_undo(edits, cursor_before, after);
    if let Some(action) = action {
        editor.set_repeat_action(action);
    }
    Some(token)
}

/// Gives lines their structural indentation, recorded as one change; how many
/// changed. The cursor goes to the text of the last of the lines.
pub fn auto_indent_lines_with_tracking<B: ClipboardBackend>(
    editor: &mut Editor<B>,
    start_line: usize,
    end_line: usize,
    options: IndentOptions,
) -> (n: usize)
    requires
        old(editor).wf(),
    ensures
        final(editor).wf(),
        final(editor).registers == old(editor).registers,
        exists|plan: Seq<crate::auto_indent::PlannedIndent>|
            {
                let b = old(editor).cur();
                &&& #[trigger] is_plan(
                    plan,
                    old(editor).cur(),
                    start_line as int,
                    end_line as int,
                    options.norm(),
                )
                &&& n == planned_changes(plan, plan.len() as int)
                &&& if plan.len() == 0 {
                    final(editor).model() == old(editor).model()
                } else {
                    &&& with_plan(b, plan, plan.len() as int).moved(
                        final(editor).cur(),
                        plan.last().line as int,
                        plan.last().cursor_col as int,
                    )
                    &&& recorded_step(
                        old(editor).model(),
                        final(editor).model(),
                        old(editor).model().input,
                        crate::editor::pos_at(b.cursor),
                    )
                }
            },
{
    let ghost e = editor.model();
    let ghost b = editor.cur();
    let plan = crate::auto_indent::plan(editor.buffer(), start_line, end_line, options);
    proof {
        assert(is_plan(plan@, b, start_line as int, end_line as int, options.norm()));
    }
    if plan.len() == 0 {
        return 0;
    }
    let before = editor.cursor_position();
    let version: usize = editor.buffer().version();
    let n: usize = apply_auto_indent_plan(editor.buffer_mut(), &plan);
    proof {
        plan_only_adds(b, plan@, plan.len() as int);
    }
    let last = &plan[plan.len() - 1];
    editor.buffer_mut().set_position(last.line, GraphemeCol(last.cursor_col));
    let _ = record_since(editor, version, before, None);
    proof {
        let f = editor.model();
        assert(f.bufs =~= e.bufs.update(e.current, f.cur()));
    }
    n
}

/// Edits only add to the log.
proof fn plan_only_adds(b: Buf, plan: Seq<crate::auto_indent::PlannedIndent>, k: int)
    requires
        0 <= k <= plan.len(),
    ensures
        with_plan(b, plan, k).log.len() >= b.log.len(),
    decreases k,
{
    if k > 0 {
        plan_only_adds(b, plan, k - 1);
    }
}

/// Where the word that a yank takes ends in the text: where a forward motion
/// goes, or the end of the last line where it does not move there.
pub open spec fn word_yank_end(b: Buf, count: nat) -> int {
    let p = crate::editor::motions::pos_of(b.cursor);
    let q = crate::editor::motions::word::forward_n(b.text, p, false, count);
    let content = line_content(b.text, q.line as nat);
    line_start(b.text, q.line as nat) + if q.line == p.line && q.col == p.col && q.line + 1
        >= line_count(b.text) {
        content.len()
    } else {
        char_col_of(content, q.col as nat)
    }
}

/// The text from the cursor to where a word motion goes. The cursor stays
/// where it is.
pub fn yank_word(buffer: &mut Buffer, count: usize) -> (s: String)
    requires
        old(buffer).model().line() < line_count(old(buffer).text()),
    ensures
        ({
            let b = old(buffer).model();
            let from = line_start(b.text, b.line() as nat) + b.char_col();
            let to = word_yank_end(b, count as nat);
            &&& b.moved(final(buffer).model(), b.line(), b.col())
            &&& 0 <= from <= b.text.len()
            &&& 0 <= to <= b.text.len()
            &&& b.col() <= graphemes_of(b.here()).len() ==> from <= to
            &&& s@ == if from <= to {
                b.text.subrange(from, to)
            } else {
                Seq::empty()
            }
        }),
{
    let ghost b = buffer.model();
    let ghost p = crate::editor::motions::pos_of(b.cursor);
    let line: usize = buffer.cursor().line();
    let col: usize = buffer.cursor().col().0;
    let first: usize = buffer.cursor_char_col().0;
    let clusters: usize = buffer.line_graphemes(line);
    let total: usize = buffer.len_chars();
    let start: usize = buffer.line_to_char(line);
    proof {
        line_start_is(b.text, line as nat);
        assert(total == b.text.len());
    }
    let from: usize = start + first;
    crate::editor::motions::Motions::word_forward(buffer, count);
    let end_line: usize = buffer.cursor().line();
    let end_col: usize = buffer.cursor().col().0;
    let stop: usize = if end_line == line && end_col == col && end_line >= buffer.line_count() - 1 {
        buffer.line_content_len(end_line)
    } else {
        buffer.cursor_char_col().0
    };
    let end_start: usize = buffer.line_to_char(end_line);
    buffer.set_position(line, GraphemeCol(col));
    proof {
        line_start_is(b.text, end_line as nat);
        if col <= clusters {
            crate::editor::motions::word::forward_n_goes_on(b.text, p, false, count as nat);
            if line < end_line {
                crate::lines::line_starts_grow(b.text, line as nat, end_line as nat);
            } else {
                crate::unicode::chars_before_grows(
                    graphemes_of(b.here()),
                    col as int,
                    end_col as int,
                );
            }
        }
    }
    let to: usize = end_start + stop;
    if from > to {
        return String::new();
    }
    buffer.slice(from, to)
}

/// The lines of a range were given other indentations, one after the other.
pub open spec fn shifted_lines(b: Buf, line: int, end: int, o: IndentOptions, more: bool) -> Buf
    decreases end - line,
{
    if line >= end || line < 0 {
        b
    } else {
        let content = line_content(b.text, line as nat);
        let width = leading_width_of(content, o.tab_width as int);
        let target = if more {
            bounded(width + o.shift_width)
        } else {
            floor_sub(width, o.shift_width as int)
        };
        shifted_lines(
            if content.len() == 0 {
                b
            } else {
                b.reindented(line as nat, o.encoded(target))
            },
            line + 1,
            end,
            o,
            more,
        )
    }
}

fn shift_lines(buffer: &mut Buffer, start: usize, end: usize, options: IndentOptions, more: bool)
    requires
        options.wf(),
    ensures
        final(buffer).model() == shifted_lines(
            old(buffer).model(),
            start as int,
            end as int,
            options,
            more,
        ),
{
    let ghost goal = shifted_lines(buffer.model(), start as int, end as int, options, more);
    let mut line: usize = start;
    while line < end
        invariant
            options.wf(),
            start <= line,
            shifted_lines(buffer.model(), line as int, end as int, options, more) == goal,
        decreases end - line,
    {
        let content = buffer.content(line);
        if content.as_str().unicode_len() > 0 {
            let width: usize = leading_width(content.as_str(), options.tab_width);
            let target: usize = if more {
                width.saturating_add(options.shift_width)
            } else {
                width.saturating_sub(options.shift_width)
            };
            buffer.set_indent(line, options.encode_indent(target).as_str());
        }
        line += 1;
    }
}

proof fn shifts_only_add(b: Buf, line: int, end: int, o: IndentOptions, more: bool)
    ensures
        shifted_lines(b, line, end, o, more).log.len() >= b.log.len(),
        shifted_lines(b, line, end, o, more).log.len() == b.log.len() ==> shifted_lines(
            b,
            line,
            end,
            o,
            more,
        ) == b,
    decreases end - line,
{
    if line < end && line >= 0 {
        let content = line_content(b.text, line as nat);
        let width = leading_width_of(content, o.tab_width as int);
        let target = if more {
            bounded(width + o.shift_width)
        } else {
            floor_sub(width, o.shift_width as int)
        };
        let b1 = if content.len() == 0 {
            b
        } else {
            b.reindented(line as nat, o.encoded(target))
        };
        shifts_only_add(b1, line + 1, end, o, more);
    }
}

/// Lines were shifted, recorded as one change, and the cursor put on the text
/// of the first of them. Where no line changes, nothing does.
pub open spec fn lines_shifted(
    e: Ed,
    after: Ed,
    start: usize,
    end: int,
    pos: CursorPos,
    more: bool,
) -> bool {
    let o = e.indent().norm();
    let b = shifted_lines(e.cur(), start as int, end, o, more);
    if b.log.len() <= e.cur().log.len() {
        after == e
    } else {
        let line_count = (end - start) as usize;
        &&& b.moved(
            after.cur(),
            start as int,
            grapheme_col_of(
                line_content(b.text, start as nat),
                crate::buffer::first_non_blank(line_content(b.text, start as nat), 0) as nat,
            ) as int,
        )
        &&& recorded_step(
            e,
            after,
            InputState {
                repeat: Some(
                    if more {
                        RepeatAction::IndentLines { line_count, options: o }
                    } else {
                        RepeatAction::DedentLines { line_count, options: o }
                    },
                ),
                ..e.input
            },
            pos,
        )
    }
}

fn shift_with_tracking<B: ClipboardBackend>(
    editor: &mut Editor<B>,
    start_line: usize,
    end_line: usize,
    cursor_before: CursorPos,
    more: bool,
)
    requires
        old(editor).wf(),
    ensures
        final(editor).wf(),
        final(editor).registers == old(editor).registers,
        lines_shifted(
            old(editor).model(),
            final(editor).model(),
            start_line,
            least(end_line as int, line_count(old(editor).cur().text) as int),
            cursor_before,
            more,
        ),
{
    let ghost e = editor.model();
    let ghost b = editor.cur();
    let options = editor.indent_options();
    let count: usize = editor.buffer().line_count();
    let end: usize = if end_line < count {
        end_line
    } else {
        count
    };
    let version: usize = editor.buffer().version();
    shift_lines(editor.buffer_mut(), start_line, end, options, more);
    proof {
        shifts_only_add(b, start_line as int, end as int, options, more);
    }
    if editor.buffer().version() <= version {
        proof {
            assert(editor.model().bufs =~= e.bufs);
        }
        return;
    }
    let at = editor.buffer().first_non_blank_col(start_line);
    editor.buffer_mut().set_cursor_char_col(start_line, at);
    let line_count: usize = if start_line < end {
        end - start_line
    } else {
        0
    };
    let action = if more {
        RepeatAction::IndentLines { line_count, options }
    } else {
        RepeatAction::DedentLines { line_count, options }
    };
    let _ = record_since(editor, version, cursor_before, Some(action));
    proof {
        let f = editor.model();
        assert(f.bufs =~= e.bufs.update(e.current, f.cur()));
        if start_line >= end {
            assert(shifted_lines(b, start_line as int, end as int, options, more) == b);
        }
    }
}

/// Shifts lines one level to the right.
pub fn indent_lines_with_tracking<B: ClipboardBackend>(
    editor: &mut Editor<B>,
    start_line: usize,
    end_line: usize,
    cursor_before: CursorPos,
)
    requires
        old(editor).wf(),
    ensures
        final(editor).wf(),
        final(editor).registers == old(editor).registers,
        lines_shifted(
            old(editor).model(),
            final(editor).model(),
            start_line,
            least(end_line as int, line_count(old(editor).cur().text) as int),
            cursor_before,
            true,
        ),
{
    shift_with_tracking(editor, start_line, end_line, cursor_before, true);
}

/// Shifts lines one level to the left.
pub fn dedent_lines_with_tracking<B: ClipboardBackend>(
    editor: &mut Editor<B>,
    start_line: usize,
    end_line: usize,
    cursor_before: CursorPos,
)
    requires
        old(editor).wf(),
    ensures
        final(editor).wf(),
        final(editor).registers == old(editor).registers,
        lines_shifted(
            old(editor).model(),
            final(editor).model(),
            start_line,
            least(end_line as int, line_count(old(editor).cur().text) as int),
            cursor_before,
            false,
        ),
{
    shift_with_tracking(editor, start_line, end_line, cursor_before, false);
}

} // verus!
