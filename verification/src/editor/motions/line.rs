//! Line positioning motions: ^, g_, +, -, _
use crate::buffer::{first_non_blank, Buffer};
use crate::editor::motions::{at, cursor_moved, Motions};
use crate::lines::{line_content, line_count};
use crate::unicode::{grapheme_col_of, whitespace, CharCol, GraphemeCol};
use vstd::prelude::*;

verus! {

/// The cluster column of the first character that is no white space; the
/// start of a blank line.
pub open spec fn first_col(line: Seq<char>) -> int {
    let c = first_non_blank(line, 0);
    if c < line.len() {
        grapheme_col_of(line, c as nat) as int
    } else {
        0
    }
}

/// The last of the first `k` characters that is no white space.
pub open spec fn last_non_blank_before(line: Seq<char>, k: int) -> Option<int>
    decreases k,
{
    if k <= 0 || k > line.len() {
        None
    } else if !whitespace(line[k - 1]) {
        Some(k - 1)
    } else {
        last_non_blank_before(line, k - 1)
    }
}

/// The cluster column of the last character that is no white space; the start
/// of a blank line.
pub open spec fn last_col(line: Seq<char>) -> int {
    match last_non_blank_before(line, line.len() as int) {
        Some(c) => grapheme_col_of(line, c as nat) as int,
        None => 0,
    }
}

impl Motions {
    /// Moves to the first non-blank character of the line.
    pub fn first_non_blank(buffer: &mut Buffer)
        ensures
            cursor_moved(
                old(buffer).model(),
                final(buffer).model(),
                at(old(buffer).model().line(), first_col(old(buffer).model().here())),
            ),
    {
        let line: usize = buffer.cursor().line();
        let c = buffer.first_non_blank_col(line);
        let index = buffer.line_index(line);
        let col = if c.0 < index.len_chars() {
            index.char_to_grapheme(c)
        } else {
            GraphemeCol(0)
        };
        buffer.set_position(line, col);
    }

    /// Moves to the first non-blank character of the line.
    pub fn first_non_blank_underscore(buffer: &mut Buffer)
        ensures
            cursor_moved(
                old(buffer).model(),
                final(buffer).model(),
                at(old(buffer).model().line(), first_col(old(buffer).model().here())),
            ),
    {
        Self::first_non_blank(buffer);
    }

    /// Moves down and to the first non-blank character there.
    pub fn plus_motion(buffer: &mut Buffer, count: usize)
        ensures
            ({
                let b = old(buffer).model();
                let last = line_count(b.text) - 1;
                let line = if b.line() + count < last {
                    b.line() + count
                } else {
                    last
                };
                cursor_moved(
                    b,
                    final(buffer).model(),
                    at(line, first_col(line_content(b.text, line as nat))),
                )
            }),
    {
        let current: usize = buffer.cursor().line();
        let last: usize = buffer.line_count() - 1;
        let target: usize = if current < last && count < last - current {
            current + count
        } else {
            last
        };
        buffer.set_position(target, GraphemeCol(0));
        Self::first_non_blank(buffer);
    }

    /// Moves up and to the first non-blank character there.
    pub fn minus_motion(buffer: &mut Buffer, count: usize)
        ensures
            ({
                let b = old(buffer).model();
                let line = if b.line() > count {
                    b.line() - count
                } else {
                    0
                };
                cursor_moved(
                    b,
                    final(buffer).model(),
                    at(line, first_col(line_content(b.text, line as nat))),
                )
            }),
    {
        let current: usize = buffer.cursor().line();
        buffer.set_position(current.saturating_sub(count), GraphemeCol(0));
        Self::first_non_blank(buffer);
    }

    /// Moves to the last non-blank character of the line.
    pub fn last_non_blank(buffer: &mut Buffer)
        ensures
            cursor_moved(
                old(buffer).model(),
                final(buffer).model(),
                at(old(buffer).model().line(), last_col(old(buffer).model().here())),
            ),
    {
        let line: usize = buffer.cursor().line();
        let index = buffer.line_index(line);
        let n: usize = index.len_chars();
        let mut k: usize = n;
        while k > 0 && crate::unicode::is_whitespace(index.char_at(k - 1))
            invariant
                k <= n == index.text().len(),
                last_non_blank_before(index.text(), k as int) == last_non_blank_before(
                    index.text(),
                    n as int,
                ),
            decreases k,
        {
            k -= 1;
        }
        let col = if k > 0 {
            index.char_to_grapheme(CharCol(k - 1))
        } else {
            GraphemeCol(0)
        };
        buffer.set_position(line, col);
    }
}

} // verus!
