//! Character find motions: f, F, t, T
use crate::buffer::{Buf, Buffer};
use crate::editor::motions::{at, cursor_moved, Motions};
use crate::lines::line_count;
use crate::text_index::LineIndex;
use crate::unicode::{grapheme_col_of, CharCol};
use vstd::prelude::*;

verus! {

/// The `n`th occurrence of a character at or behind `i`.
pub open spec fn nth_forward(line: Seq<char>, i: int, c: char, n: nat) -> Option<int>
    decreases line.len() - i,
{
    if n == 0 || i < 0 || i >= line.len() {
        None
    } else if line[i] == c {
        if n == 1 {
            Some(i)
        } else {
            nth_forward(line, i + 1, c, (n - 1) as nat)
        }
    } else {
        nth_forward(line, i + 1, c, n)
    }
}

/// The `n`th occurrence of a character before `i`, going backward.
pub open spec fn nth_backward(line: Seq<char>, i: int, c: char, n: nat) -> Option<int>
    decreases i,
{
    if n == 0 || i <= 0 || i > line.len() {
        None
    } else if line[i - 1] == c {
        if n == 1 {
            Some(i - 1)
        } else {
            nth_backward(line, i - 1, c, (n - 1) as nat)
        }
    } else {
        nth_backward(line, i - 1, c, n)
    }
}

/// The character that a find motion goes to, on the cursor's line. A motion
/// up to a character stops one short of it, and fails where it would not move.
pub open spec fn find_target(b: Buf, c: char, n: nat, forward: bool, till: bool) -> Option<int> {
    let from = b.char_col();
    if b.line() >= line_count(b.text) {
        None
    } else if forward {
        match nth_forward(b.here(), from + 1, c, n) {
            Some(k) => if !till {
                Some(k)
            } else if k <= from + 1 {
                None
            } else {
                Some(k - 1)
            },
            None => None,
        }
    } else {
        match nth_backward(b.here(), from, c, n) {
            Some(k) => if !till {
                Some(k)
            } else if k + 1 >= from {
                None
            } else {
                Some(k + 1)
            },
            None => None,
        }
    }
}

/// What a find motion leaves: the cursor at its target, or nothing changed.
pub open spec fn found(before: Buf, after: Buf, target: Option<int>, res: bool) -> bool {
    match target {
        Some(k) => res && cursor_moved(
            before,
            after,
            at(before.line(), grapheme_col_of(before.here(), k as nat) as int),
        ),
        None => !res && after == before,
    }
}

fn find_forward_char(index: &LineIndex, from: usize, target: char, count: usize) -> (res: Option<
    usize,
>)
    requires
        from <= index.text().len() + 1,
    ensures
        match res {
            Some(k) => nth_forward(index.text(), from as int, target, count as nat) == Some(
                k as int,
            ) && from <= k < index.text().len(),
            None => nth_forward(index.text(), from as int, target, count as nat) is None,
        },
{
    let n: usize = index.len_chars();
    let mut left: usize = count;
    let mut i: usize = from;
    while left > 0 && i < n
        invariant
            from <= i,
            n == index.text().len(),
            nth_forward(index.text(), i as int, target, left as nat) == nth_forward(
                index.text(),
                from as int,
                target,
                count as nat,
            ),
        decreases n - i,
    {
        if index.char_at(i) == target {
            if left == 1 {
                return Some(i);
            }
            left -= 1;
        }
        i += 1;
    }
    None
}

fn find_backward_char(index: &LineIndex, before: usize, target: char, count: usize) -> (res: Option<
    usize,
>)
    requires
        before <= index.text().len(),
    ensures
        match res {
            Some(k) => nth_backward(index.text(), before as int, target, count as nat) == Some(
                k as int,
            ) && k < before,
            None => nth_backward(index.text(), before as int, target, count as nat) is None,
        },
{
    let mut left: usize = count;
    let mut i: usize = before;
    while left > 0 && i > 0
        invariant
            i <= before <= index.text().len(),
            nth_backward(index.text(), i as int, target, left as nat) == nth_backward(
                index.text(),
                before as int,
                target,
                count as nat,
            ),
        decreases i,
    {
        if index.char_at(i - 1) == target {
            if left == 1 {
                return Some(i - 1);
            }
            left -= 1;
        }
        i -= 1;
    }
    None
}

fn find(buffer: &mut Buffer, ch: char, count: usize, forward: bool, till: bool) -> (res: bool)
    ensures
        found(
            old(buffer).model(),
            final(buffer).model(),
            find_target(old(buffer).model(), ch, count as nat, forward, till),
            res,
        ),
{
    let line: usize = buffer.cursor().line();
    if line >= buffer.line_count() {
        return false;
    }
    let index = buffer.line_index(line);
    let from: usize = index.grapheme_to_char(buffer.cursor().col()).0;
    let n: usize = index.len_chars();
    let hit = if forward {
        if from == usize::MAX {
            None
        } else {
            find_forward_char(&index, from + 1, ch, count)
        }
    } else {
        find_backward_char(&index, from, ch, count)
    };
    let k: usize = match hit {
        Some(k) => k,
        None => return false,
    };
    let target: usize = if !till {
        k
    } else if forward {
        if k <= from + 1 {
            return false;
        }
        k - 1
    } else {
        if k + 1 >= from {
            return false;
        }
        k + 1
    };
    let col = index.char_to_grapheme(CharCol(target));
    buffer.set_position(line, col);
    true
}

impl Motions {
    /// Moves to the next occurrence of a character on the line.
    pub fn find_char_forward(buffer: &mut Buffer, ch: char, count: usize) -> (res: bool)
        ensures
            found(
                old(buffer).model(),
                final(buffer).model(),
                find_target(old(buffer).model(), ch, count as nat, true, false),
                res,
            ),
    {
        find(buffer, ch, count, true, false)
    }

    /// Moves to the previous occurrence of a character on the line.
    pub fn find_char_backward(buffer: &mut Buffer, ch: char, count: usize) -> (res: bool)
        ensures
            found(
                old(buffer).model(),
                final(buffer).model(),
                find_target(old(buffer).model(), ch, count as nat, false, false),
                res,
            ),
    {
        find(buffer, ch, count, false, false)
    }

    /// Moves before the next occurrence of a character on the line.
    pub fn till_char_forward(buffer: &mut Buffer, ch: char, count: usize) -> (res: bool)
        ensures
            found(
                old(buffer).model(),
                final(buffer).model(),
                find_target(old(buffer).model(), ch, count as nat, true, true),
                res,
            ),
    {
        find(buffer, ch, count, true, true)
    }

    /// Moves behind the previous occurrence of a character on the line.
    pub fn till_char_backward(buffer: &mut Buffer, ch: char, count: usize) -> (res: bool)
        ensures
            found(
                old(buffer).model(),
                final(buffer).model(),
                find_target(old(buffer).model(), ch, count as nat, false, true),
                res,
            ),
    {
        find(buffer, ch, count, false, true)
    }
}

/// A find motion never leaves the line, and goes to a character that it was
/// asked for.
pub proof fn find_forward_hits(line: Seq<char>, i: int, c: char, n: nat)
    requires
        0 <= i,
    ensures
        nth_forward(line, i, c, n) matches Some(k) ==> i <= k < line.len() && line[k] == c,
    decreases line.len() - i,
{
    if n > 0 && i < line.len() {
        if line[i] == c {
            if n > 1 {
                find_forward_hits(line, i + 1, c, (n - 1) as nat);
            }
        } else {
            find_forward_hits(line, i + 1, c, n);
        }
    }
}

/// Going backward hits the asked character before the start.
pub proof fn find_backward_hits(line: Seq<char>, i: int, c: char, n: nat)
    requires
        i <= line.len(),
    ensures
        nth_backward(line, i, c, n) matches Some(k) ==> 0 <= k < i && line[k] == c,
    decreases i,
{
    if n > 0 && i > 0 {
        if line[i - 1] == c {
            if n > 1 {
                find_backward_hits(line, i - 1, c, (n - 1) as nat);
            }
        } else {
            find_backward_hits(line, i - 1, c, n);
        }
    }
}

} // verus!
