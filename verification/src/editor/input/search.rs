//! Searching for the selection or for the word under the cursor.
use crate::buffer::{Buf, Buffer};
use crate::editor::clipboard::ClipboardBackend;
use crate::editor::input::helpers::word_char;
use crate::editor::input::visual::{block_rows, block_text, uppercase};
use crate::editor::register::Registers;
use crate::editor::{
    after_col, char_range, range_text, selection_of, yank_range, Ed, Editor, InputState, Mode,
};
use crate::fmt::joined;
use crate::lines::{line_content, line_count};
use crate::text::chars_of;
use crate::text_index::{bytes_before, bytes_grow, char_bytes, LineIndex};
use crate::unicode::{
    char_col_of, char_to_grapheme_col, grapheme_col_of, graphemes_of, is_alphanumeric, CharCol,
    GraphemeCol,
};
use vstd::prelude::*;

verus! {

/// A character that means something in a pattern.
pub open spec fn is_meta(c: char) -> bool {
    c == '\\' || c == '.' || c == '+' || c == '*' || c == '?' || c == '(' || c == ')' || c == '|'
        || c == '[' || c == ']' || c == '{' || c == '}' || c == '^' || c == '$' || c == '#' || c
        == '&' || c == '-' || c == '~'
}

/// The pattern that stands for the first `k` characters of a text themselves:
/// a backslash before each that means something in a pattern.
pub open spec fn literal_pattern(text: Seq<char>, k: int) -> Seq<char>
    decreases k,
{
    if k <= 0 || k > text.len() {
        Seq::empty()
    } else {
        let c = text[k - 1];
        if is_meta(c) {
            literal_pattern(text, k - 1).push('\\').push(c)
        } else {
            literal_pattern(text, k - 1).push(c)
        }
    }
}

/// Where a pattern matches a line: the byte at which each match starts and the
/// byte behind its end, in order, none overlapping another.
pub uninterp spec fn pattern_matches(pattern: Seq<char>, ignore_case: bool, line: Seq<char>) -> Seq<
    (usize, usize),
>;

/// `regex::escape` puts a backslash before each character that means something
/// in a pattern.
#[verifier::external_body]
fn escape(text: &str) -> (s: String)
    ensures
        s@ == literal_pattern(text@, text@.len() as int),
{
    regex::escape(text)
}

/// `Regex::find_iter` of a pattern built with `RegexBuilder`: the byte ranges
/// of the matches, by the pattern semantics that the name stands for. A
/// pattern that does not compile matches nowhere.
#[verifier::external_body]
fn find_matches(pattern: &str, ignore_case: bool, line: &str) -> (out: Vec<(usize, usize)>)
    ensures
        out@ == pattern_matches(pattern@, ignore_case, line@),
{
    match regex::RegexBuilder::new(pattern).case_insensitive(ignore_case).build() {
        Ok(re) => re.find_iter(line).map(|m| (m.start(), m.end())).collect(),
        Err(_) => Vec::new(),
    }
}

/// How many of the characters from the `k`th on start before a byte.
pub open spec fn chars_to_byte(t: Seq<char>, k: int, byte: int) -> int
    decreases t.len() - k,
{
    if 0 <= k < t.len() && bytes_before(t, k) < byte {
        chars_to_byte(t, k + 1, byte)
    } else {
        k
    }
}

/// The cluster columns at which a pattern matches a line.
pub open spec fn match_cols(line: Seq<char>, pattern: Seq<char>, ignore_case: bool) -> Seq<int> {
    pattern_matches(pattern, ignore_case, line).map_values(
        |m: (usize, usize)|
            grapheme_col_of(line, chars_to_byte(line, 0, m.0 as int) as nat) as int,
    )
}

/// The first of the columns, from the `k`th on, that is not before another.
pub open spec fn first_from(cols: Seq<int>, k: int, col: int) -> Option<int>
    decreases cols.len() - k,
{
    if k < 0 || k >= cols.len() {
        None
    } else if cols[k] >= col {
        Some(cols[k])
    } else {
        first_from(cols, k + 1, col)
    }
}

/// The last of the first `k` columns that is before another.
pub open spec fn last_before(cols: Seq<int>, k: int, col: int) -> Option<int>
    decreases k,
{
    if k <= 0 || k > cols.len() {
        None
    } else if cols[k - 1] < col {
        Some(cols[k - 1])
    } else {
        last_before(cols, k - 1, col)
    }
}

/// The line after another, the first after the last.
pub open spec fn line_after(line: int, count: int, forward: bool) -> int {
    if forward {
        if line + 1 < count {
            line + 1
        } else {
            0
        }
    } else if line > 0 {
        line - 1
    } else {
        count - 1
    }
}

/// The first match from a position on, over `steps` lines: on the line itself
/// from the position, on the lines after it anywhere.
pub open spec fn find_from(
    t: Seq<char>,
    pattern: Seq<char>,
    ignore_case: bool,
    line: int,
    col: int,
    forward: bool,
    steps: nat,
) -> Option<(int, int)>
    decreases steps,
{
    if steps == 0 {
        None
    } else {
        let cols = match_cols(line_content(t, line as nat), pattern, ignore_case);
        let hit = if forward {
            first_from(cols, 0, col)
        } else {
            last_before(cols, cols.len() as int, col)
        };
        match hit {
            Some(c) => Some((line, c)),
            None => find_from(
                t,
                pattern,
                ignore_case,
                line_after(line, line_count(t) as int, forward),
                if forward {
                    0
                } else {
                    usize::MAX as int
                },
                forward,
                (steps - 1) as nat,
            ),
        }
    }
}

fn byte_to_char(cs: &Vec<char>, byte: usize) -> (k: usize)
    requires
        bytes_before(cs@, cs.len() as int) <= usize::MAX,
    ensures
        k == chars_to_byte(cs@, 0, byte as int),
{
    let mut k: usize = 0;
    let mut at: usize = 0;
    while k < cs.len() && at < byte
        invariant
            k <= cs.len(),
            at == bytes_before(cs@, k as int),
            bytes_before(cs@, cs.len() as int) <= usize::MAX,
            chars_to_byte(cs@, k as int, byte as int) == chars_to_byte(cs@, 0, byte as int),
        decreases cs.len() - k,
    {
        proof {
            bytes_grow(cs@, k + 1, cs.len() as int);
        }
        at += char_bytes(cs[k]);
        k += 1;
    }
    k
}

/// The cluster columns at which a pattern matches a line.
fn match_columns(line: &str, pattern: &str, ignore_case: bool) -> (cols: Vec<usize>)
    ensures
        cols@.map_values(|c: usize| c as int) == match_cols(line@, pattern@, ignore_case),
{
    let matches = find_matches(pattern, ignore_case, line);
    let cs = chars_of(line);
    let size: usize = crate::fmt::byte_len(line);
    let mut cols: Vec<usize> = Vec::new();
    let ghost want = match_cols(line@, pattern@, ignore_case);
    let mut k: usize = 0;
    while k < matches.len()
        invariant
            k <= matches.len(),
            cs@ == line@,
            size == bytes_before(line@, line@.len() as int),
            matches@ == pattern_matches(pattern@, ignore_case, line@),
            want == match_cols(line@, pattern@, ignore_case),
            cols.len() == k,
            forall|i: int| 0 <= i < k ==> cols@[i] == want[i],
        decreases matches.len() - k,
    {
        let c: usize = byte_to_char(&cs, matches[k].0);
        cols.push(char_to_grapheme_col(line, CharCol(c)).0);
        k += 1;
    }
    proof {
        assert(cols@.map_values(|c: usize| c as int) =~= want);
    }
    cols
}

/// The first match from a position on, going round the whole text.
pub fn find_next(
    buffer: &Buffer,
    pattern: &str,
    ignore_case: bool,
    line: usize,
    col: usize,
    forward: bool,
) -> (res: Option<(usize, usize)>)
    ensures
        find_from(
            buffer.text(),
            pattern@,
            ignore_case,
            line as int,
            col as int,
            forward,
            line_count(buffer.text()) + 1,
        ) == match res {
            Some((l, c)) => Some((l as int, c as int)),
            None => None,
        },
{
    let count: usize = buffer.line_count();
    let ghost t = buffer.text();
    let ghost goal = find_from(
        t,
        pattern@,
        ignore_case,
        line as int,
        col as int,
        forward,
        (count + 1) as nat,
    );
    let mut l: usize = line;
    let mut from: usize = col;
    let mut left: usize = count;
    let mut more = true;
    while more
        invariant
            t == buffer.text(),
            count == line_count(t),
            count > 0,
            goal == find_from(
                t,
                pattern@,
                ignore_case,
                line as int,
                col as int,
                forward,
                (count + 1) as nat,
            ),
            find_from(
                t,
                pattern@,
                ignore_case,
                l as int,
                from as int,
                forward,
                if more {
                    (left + 1) as nat
                } else {
                    0
                },
            ) == goal,
        decreases
                if more {
                    left + 1
                } else {
                    0
                },
    {
        let content = buffer.content(l);
        let cols = match_columns(content.as_str(), pattern, ignore_case);
        let ghost model = cols@.map_values(|c: usize| c as int);
        if forward {
            let mut k: usize = 0;
            while k < cols.len() && cols[k] < from
                invariant
                    k <= cols.len(),
                    model == cols@.map_values(|c: usize| c as int),
                    first_from(model, k as int, from as int) == first_from(model, 0, from as int),
                decreases cols.len() - k,
            {
                proof {
                    assert(model[k as int] == cols@[k as int]);
                }
                k += 1;
            }
            if k < cols.len() {
                proof {
                    assert(model[k as int] == cols@[k as int]);
                }
                return Some((l, cols[k]));
            }
        } else {
            let mut k: usize = cols.len();
            while k > 0 && cols[k - 1] >= from
                invariant
                    k <= cols.len(),
                    model == cols@.map_values(|c: usize| c as int),
                    last_before(model, k as int, from as int) == last_before(
                        model,
                        model.len() as int,
                        from as int,
                    ),
                decreases k,
            {
                proof {
                    assert(model[k - 1] == cols@[k - 1]);
                }
                k -= 1;
            }
            if k > 0 {
                proof {
                    assert(model[k - 1] == cols@[k - 1]);
                }
                return Some((l, cols[k - 1]));
            }
        }
        proof {
            assert(model == match_cols(line_content(t, l as nat), pattern@, ignore_case));
            assert(forward ==> first_from(model, 0, from as int) is None);
            assert(!forward ==> last_before(model, model.len() as int, from as int) is None);
        }
        if left == 0 {
            proof {
                assert(find_from(
                    t,
                    pattern@,
                    ignore_case,
                    line_after(l as int, count as int, forward),
                    if forward {
                        0
                    } else {
                        usize::MAX as int
                    },
                    forward,
                    0,
                ) is None);
            }
            more = false;
        } else {
            left -= 1;
            if forward {
                l = if l < count - 1 {
                    l + 1
                } else {
                    0
                };
                from = 0;
            } else {
                l = if l > 0 {
                    l - 1
                } else {
                    count - 1
                };
                from = usize::MAX;
            }
        }
    }
    None
}

/// The lines of a selection, from the first up to before `line`, each but the
/// last with a line feed.
pub open spec fn lines_text(t: Seq<char>, first: int, line: int, last: int) -> Seq<char>
    decreases line - first,
{
    if line <= first || line <= 0 {
        Seq::empty()
    } else {
        let before = lines_text(t, first, line - 1, last);
        if line - 1 >= line_count(t) {
            before
        } else {
            let with = before + line_content(t, (line - 1) as nat);
            if line - 1 < last {
                with.push('\n')
            } else {
                with
            }
        }
    }
}

/// The text of the selection of a visual mode.
pub open spec fn selected_text(e: Ed) -> Option<Seq<char>> {
    match selection_of(e) {
        Some((start, end)) => {
            let t = e.cur().text;
            match e.input.mode {
                Mode::Visual => Some(range_text(t, char_range(t, start, end))),
                Mode::VisualLine => Some(
                    lines_text(t, start.0 as int, end.0 + 1, end.0 as int),
                ),
                Mode::VisualBlock => {
                    let rows = block_rows(t, start.0 as int, end.0 + 1, start.1 as nat, end.1);
                    Some(joined(rows, rows.len() as int, "\n"@))
                },
                _ => None,
            }
        },
        None => None,
    }
}

fn text_of_lines(buffer: &Buffer, first: usize, last: usize) -> (s: String)
    requires
        first <= last,
    ensures
        s@ == lines_text(buffer.text(), first as int, last + 1, last as int),
{
    let ghost t = buffer.text();
    let count: usize = buffer.line_count();
    let stop: usize = if last < count {
        last + 1
    } else {
        count
    };
    let mut s = String::new();
    let mut line: usize = first;
    while line < stop
        invariant
            t == buffer.text(),
            count == line_count(t),
            first <= line,
            line <= stop || line == first,
            stop <= count,
            stop <= last + 1,
            s@ == lines_text(t, first as int, line as int, last as int),
        decreases stop - line,
    {
        s.append(buffer.content(line).as_str());
        if line < last {
            s.push('\n');
        }
        line += 1;
    }
    proof {
        lines_behind(t, first as int, line as int, last + 1, last as int);
    }
    s
}

proof fn lines_behind(t: Seq<char>, first: int, line: int, stop: int, last: int)
    requires
        0 <= first <= line,
        line == stop || line >= line_count(t),
    ensures
        line <= stop ==> lines_text(t, first, line, last) == lines_text(t, first, stop, last),
    decreases stop - line,
{
    if line < stop {
        lines_behind(t, first, line, stop - 1, last);
    }
}

/// The text of the selection of a visual mode.
pub fn get_visual_selection_text<B: ClipboardBackend>(editor: &Editor<B>) -> (res: Option<String>)
    requires
        editor.wf(),
    ensures
        crate::fmt::opt_view(res) == selected_text(editor.model()),
{
    let (start, end) = match editor.visual_selection() {
        Some(s) => s,
        None => return None,
    };
    match editor.mode() {
        Mode::Visual => match editor.visual_character_range() {
            Some(range) => Some(yank_range(editor.buffer(), range)),
            None => None,
        },
        Mode::VisualLine => Some(text_of_lines(editor.buffer(), start.0, end.0)),
        Mode::VisualBlock => Some(
            block_text(editor.buffer(), start.0, end.0, start.1, end.1),
        ),
        _ => None,
    }
}

/// Whether cluster `k` of a line starts with a word character.
pub open spec fn word_cluster(line: Seq<char>, k: int) -> bool {
    0 <= k < graphemes_of(line).len() && word_char(graphemes_of(line)[k][0])
}

/// The first cluster of the word that ends before `k`.
pub open spec fn word_from(line: Seq<char>, k: int) -> int
    decreases k,
{
    if k > 0 && word_cluster(line, k - 1) {
        word_from(line, k - 1)
    } else {
        k
    }
}

/// The cluster behind the word that goes on at `k`.
pub open spec fn word_to(line: Seq<char>, k: int) -> int
    decreases graphemes_of(line).len() - k,
{
    if word_cluster(line, k) {
        word_to(line, k + 1)
    } else {
        k
    }
}

/// The word under the cursor.
pub open spec fn word_here(b: Buf) -> Option<Seq<char>> {
    let line = b.here();
    if word_cluster(line, b.col()) {
        Some(
            crate::text_index::slice_of(
                line,
                char_col_of(line, word_from(line, b.col()) as nat) as int,
                char_col_of(line, word_to(line, b.col() + 1) as nat) as int,
            ),
        )
    } else {
        None
    }
}

fn is_word_cluster(index: &LineIndex, k: usize) -> (res: bool)
    ensures
        res == word_cluster(index.text(), k as int),
{
    match index.grapheme_first_char(GraphemeCol(k)) {
        Some(c) => is_alphanumeric(c) || c == '_',
        None => false,
    }
}

fn extract_word_at_cursor<B: ClipboardBackend>(editor: &Editor<B>) -> (res: Option<String>)
    requires
        editor.wf(),
    ensures
        crate::fmt::opt_view(res) == word_here(editor.cur()),
{
    let line: usize = editor.buffer().cursor().line();
    let col: usize = editor.buffer().cursor().col().0;
    let index = editor.buffer().line_index(line);
    if !is_word_cluster(&index, col) {
        return None;
    }
    let n: usize = index.grapheme_count();
    let mut start: usize = col;
    while start > 0 && is_word_cluster(&index, start - 1)
        invariant
            start <= col,
            word_from(index.text(), start as int) == word_from(index.text(), col as int),
        decreases start,
    {
        start -= 1;
    }
    let mut end: usize = col + 1;
    while end < n && is_word_cluster(&index, end)
        invariant
            col < end <= n == index.parts().len(),
            word_to(index.text(), end as int) == word_to(index.text(), col + 1),
        decreases n - end,
    {
        end += 1;
    }
    let from = index.grapheme_to_char(GraphemeCol(start));
    let to = index.grapheme_to_char(GraphemeCol(end));
    Some(index.slice_chars(from.0, to.0))
}

/// What a search for the selection looks for: the selection, or the word
/// under the cursor where nothing is selected.
pub open spec fn search_subject(e: Ed) -> Option<Seq<char>> {
    match selected_text(e) {
        Some(text) => if text.len() > 0 {
            Some(text)
        } else {
            word_here(e.cur())
        },
        None => word_here(e.cur()),
    }
}

/// Some of the first `k` characters is an upper-case letter.
pub open spec fn has_upper(t: Seq<char>, k: int) -> bool {
    exists|i: int| 0 <= i < k && i < t.len() && #[trigger] uppercase(t[i])
}

/// Whether a search ignores case: where it was told to, unless the pattern
/// has an upper-case letter and that counts.
pub open spec fn ignores_case(e: Ed, pattern: Seq<char>) -> bool {
    e.options.ignorecase && !(e.options.smartcase && has_upper(pattern, pattern.len() as int))
}

/// A search for a text was set up and made.
pub open spec fn searched(e: Ed, after: Ed, text: Seq<char>, forward: bool, found: bool) -> bool {
    let b = e.cur();
    let pattern = literal_pattern(text, text.len() as int);
    let set = Ed {
        search: pattern,
        input: InputState { search_forward: forward, ..e.input },
        ..e
    };
    let hit = find_from(
        b.text,
        pattern,
        ignores_case(e, pattern),
        b.line(),
        if forward {
            after_col(b.col() as usize) as int
        } else {
            b.col()
        },
        forward,
        line_count(b.text) + 1,
    );
    match hit {
        Some((line, col)) => found && b.moved(after.cur(), line, col) && after == set.with_cur(
            after.cur(),
        ),
        None => !found && after == set,
    }
}

fn any_upper(text: &str) -> (res: bool)
    ensures
        res == has_upper(text@, text@.len() as int),
{
    let cs = chars_of(text);
    let mut k: usize = 0;
    while k < cs.len()
        invariant
            k <= cs.len(),
            cs@ == text@,
            !has_upper(text@, k as int),
        decreases cs.len() - k,
    {
        if crate::editor::input::visual::is_uppercase(cs[k]) {
            proof {
                assert(uppercase(text@[k as int]));
            }
            return true;
        }
        k += 1;
    }
    false
}

/// Sets up and makes a search for a text; whether it was found.
fn setup_and_execute_search<B: ClipboardBackend>(
    editor: &mut Editor<B>,
    text: &str,
    forward: bool,
) -> (found: bool)
    requires
        old(editor).wf(),
    ensures
        final(editor).wf(),
        searched(old(editor).model(), final(editor).model(), text@, forward, found),
        final(editor).registers.model() == (Registers {
            last_search: literal_pattern(text@, text@.len() as int),
            ..old(editor).registers.model()
        }),
        final(editor).registers.clip() == old(editor).registers.clip(),
{
    let ghost e = editor.model();
    let pattern = escape(text);
    editor.search_pattern = pattern.clone();
    editor.input.search_forward = forward;
    editor.registers.set_last_search(pattern.clone());
    let ignore_case = editor.options.ignorecase && !(editor.options.smartcase && any_upper(
        pattern.as_str(),
    ));
    let line: usize = editor.buffer().cursor().line();
    let col: usize = editor.buffer().cursor().col().0;
    let from: usize = if forward {
        col.saturating_add(1)
    } else {
        col
    };
    let hit = find_next(editor.buffer(), pattern.as_str(), ignore_case, line, from, forward);
    match hit {
        Some((l, c)) => {
            editor.buffer_mut().set_position(l, GraphemeCol(c));
            true
        },
        None => false,
    }
}

fn search_selection<B: ClipboardBackend>(editor: &mut Editor<B>, forward: bool) -> (found: bool)
    requires
        old(editor).wf(),
    ensures
        final(editor).wf(),
        selection_searched(
            old(editor).model(),
            final(editor).model(),
            old(editor).registers.model(),
            final(editor).registers.model(),
            forward,
            found,
        ),
        final(editor).registers.clip() == old(editor).registers.clip(),
{
    let selected = get_visual_selection_text(editor);
    let subject = match selected {
        Some(text) => if text.as_str().unicode_len() > 0 {
            Some(text)
        } else {
            extract_word_at_cursor(editor)
        },
        None => extract_word_at_cursor(editor),
    };
    match subject {
        Some(text) => setup_and_execute_search(editor, text.as_str(), forward),
        None => false,
    }
}

/// A search for the selection was made, where there is anything to look for.
pub open spec fn selection_searched(
    e: Ed,
    after: Ed,
    registers: Registers,
    registers_after: Registers,
    forward: bool,
    found: bool,
) -> bool {
    match search_subject(e) {
        Some(text) => {
            &&& searched(e, after, text, forward, found)
            &&& registers_after == Registers { last_search: literal_pattern(text, text.len() as int), ..registers }
        },
        None => !found && after == e && registers_after == registers,
    }
}

/// Searches forward for the selection; whether it was found.
pub fn search_visual_selection_forward<B: ClipboardBackend>(editor: &mut Editor<B>) -> (found: bool)
    requires
        old(editor).wf(),
    ensures
        final(editor).wf(),
        selection_searched(
            old(editor).model(),
            final(editor).model(),
            old(editor).registers.model(),
            final(editor).registers.model(),
            true,
            found,
        ),
        final(editor).registers.clip() == old(editor).registers.clip(),
{
    search_selection(editor, true)
}

/// Searches backward for the selection; whether it was found.
pub fn search_visual_selection_backward<B: ClipboardBackend>(editor: &mut Editor<B>) -> (found:
    bool)
    requires
        old(editor).wf(),
    ensures
        final(editor).wf(),
        selection_searched(
            old(editor).model(),
            final(editor).model(),
            old(editor).registers.model(),
            final(editor).registers.model(),
            false,
            found,
        ),
        final(editor).registers.clip() == old(editor).registers.clip(),
{
    search_selection(editor, false)
}

} // verus!
