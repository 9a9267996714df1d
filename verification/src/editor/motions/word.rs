//! Word motions: w, W, b, B, e, E, ge, gE
use crate::buffer::{Buf, Buffer};
use crate::editor::motions::{
    at, classes_of_line, cursor_moved, line_kinds, pos_of, CharClass, Motions, Pos,
};
use crate::lines::line_count;
use crate::unicode::GraphemeCol;
use vstd::prelude::*;

verus! {

pub open spec fn blank(k: CharClass) -> bool {
    k is Whitespace
}

/// The first cluster at or behind `i` that is no white space.
pub open spec fn skip_blanks(ks: Seq<CharClass>, i: int) -> int
    decreases ks.len() - i,
{
    if 0 <= i < ks.len() && blank(ks[i]) {
        skip_blanks(ks, i + 1)
    } else {
        i
    }
}

/// The first cluster at or behind `i` that is not of a class.
pub open spec fn skip_class(ks: Seq<CharClass>, i: int, class: CharClass) -> int
    decreases ks.len() - i,
{
    if 0 <= i < ks.len() && ks[i] == class {
        skip_class(ks, i + 1, class)
    } else {
        i
    }
}

/// The start of the stretch of a class that ends before `i`.
pub open spec fn class_start(ks: Seq<CharClass>, i: int, class: CharClass) -> int
    decreases i,
{
    if 0 < i <= ks.len() && ks[i - 1] == class {
        class_start(ks, i - 1, class)
    } else {
        i
    }
}

/// The end of the word at `i`: its own cluster in a script without blanks.
pub open spec fn behind_word(ks: Seq<CharClass>, i: int) -> int {
    match ks[i] {
        CharClass::Whitespace => i,
        CharClass::Cjk => i + 1,
        _ => skip_class(ks, i + 1, ks[i]),
    }
}

/// The last cluster of the word at `i`.
pub open spec fn word_last(ks: Seq<CharClass>, i: int) -> int {
    match ks[i] {
        CharClass::Whitespace => i,
        CharClass::Cjk => i,
        _ => skip_class(ks, i + 1, ks[i]) - 1,
    }
}

/// Where a word starts at or behind line `n`. Empty lines are words of their
/// own; lines of white space alone are passed over.
pub open spec fn next_start(t: Seq<char>, n: int, big: bool) -> Option<(int, int)>
    decreases line_count(t) - n,
{
    if n < 0 || n >= line_count(t) {
        None
    } else {
        let ks = line_kinds(t, n, big);
        let c = skip_blanks(ks, 0);
        if ks.len() == 0 {
            Some((n, 0))
        } else if c < ks.len() {
            Some((n, c))
        } else {
            next_start(t, n + 1, big)
        }
    }
}

/// One step forward to the start of a word.
pub open spec fn forward(t: Seq<char>, p: Pos, big: bool) -> Pos {
    if p.line >= line_count(t) {
        p
    } else {
        let ks = line_kinds(t, p.line, big);
        let s = if p.col < ks.len() {
            skip_blanks(ks, behind_word(ks, p.col))
        } else {
            p.col
        };
        if s < ks.len() {
            at(p.line, s)
        } else {
            match next_start(t, p.line + 1, big) {
                Some((line, col)) => at(line, col),
                None => p,
            }
        }
    }
}

/// The start of the word that ends before `col`, on line `n` or, where only
/// white space stands before it, on an earlier line. An empty line stops it.
pub open spec fn back_from(t: Seq<char>, n: int, col: int, big: bool) -> (int, int)
    decreases n,
{
    let ks = line_kinds(t, n, big);
    let c = class_start(
        ks,
        if col < ks.len() {
            col
        } else {
            ks.len() as int
        },
        CharClass::Whitespace,
    );
    if c > 0 {
        (
            n,
            if ks[c - 1] is Cjk {
                c - 1
            } else {
                class_start(ks, c, ks[c - 1])
            },
        )
    } else if n <= 0 {
        (n, 0)
    } else {
        let len = line_kinds(t, n - 1, big).len() as int;
        if len == 0 {
            (n - 1, 0)
        } else {
            back_from(t, n - 1, len, big)
        }
    }
}

/// One step back to the start of a word.
pub open spec fn backward(t: Seq<char>, p: Pos, big: bool) -> Pos {
    if p.line >= line_count(t) || (p.col == 0 && p.line == 0) {
        p
    } else {
        let (line, col) = if p.col > 0 {
            back_from(t, p.line, p.col, big)
        } else {
            let len = line_kinds(t, p.line - 1, big).len() as int;
            if len == 0 {
                (p.line - 1, 0)
            } else {
                back_from(t, p.line - 1, len, big)
            }
        };
        at(line, col)
    }
}

/// The first line at or behind `n` that holds more than white space, and
/// where its text starts.
pub open spec fn next_text(t: Seq<char>, n: int, big: bool) -> Option<(int, int)>
    decreases line_count(t) - n,
{
    if n < 0 || n >= line_count(t) {
        None
    } else {
        let ks = line_kinds(t, n, big);
        let c = skip_blanks(ks, 0);
        if c < ks.len() {
            Some((n, c))
        } else {
            next_text(t, n + 1, big)
        }
    }
}

/// One step forward to the end of a word. With `current`, the end of the word
/// under the cursor counts even where the cursor is already on it.
pub open spec fn end_forward(t: Seq<char>, p: Pos, big: bool, current: bool) -> Pos
    decreases line_count(t) - p.line,
    via end_forward_decreases
{
    let count = line_count(t) as int;
    if p.line < 0 || p.line >= count || p.col < 0 {
        p
    } else {
        let ks = line_kinds(t, p.line, big);
        if ks.len() == 0 {
            match next_text(t, p.line + 1, big) {
                Some((line, col)) => end_forward(t, at(line, col), big, current),
                None => at(count - 1, 0),
            }
        } else {
            let word = p.col < ks.len() && !blank(ks[p.col]);
            if word && (current || p.col < word_last(ks, p.col)) {
                at(p.line, word_last(ks, p.col))
            } else {
                let s = skip_blanks(
                    ks,
                    if word {
                        p.col + 1
                    } else {
                        p.col
                    },
                );
                if s < ks.len() {
                    at(p.line, word_last(ks, s))
                } else if p.line + 1 < count {
                    end_forward(t, at(p.line + 1, 0), big, current)
                } else {
                    p
                }
            }
        }
    }
}

#[via_fn]
proof fn end_forward_decreases(t: Seq<char>, p: Pos, big: bool, current: bool) {
    if 0 <= p.line < line_count(t) {
        next_text_is(t, p.line + 1, big);
    }
}

proof fn next_text_is(t: Seq<char>, n: int, big: bool)
    requires
        0 <= n,
    ensures
        next_text(t, n, big) matches Some((line, col)) ==> n <= line < line_count(t) && 0 <= col
            < line_kinds(t, line, big).len(),
    decreases line_count(t) - n,
{
    if n < line_count(t) {
        skip_blanks_is(line_kinds(t, n, big), 0);
        if skip_blanks(line_kinds(t, n, big), 0) >= line_kinds(t, n, big).len() {
            next_text_is(t, n + 1, big);
        }
    }
}

pub proof fn skip_blanks_is(ks: Seq<CharClass>, i: int)
    requires
        0 <= i <= ks.len(),
    ensures
        i <= skip_blanks(ks, i) <= ks.len(),
        forall|j: int| i <= j < skip_blanks(ks, i) ==> blank(ks[j]),
        skip_blanks(ks, i) < ks.len() ==> !blank(ks[skip_blanks(ks, i)]),
    decreases ks.len() - i,
{
    if i < ks.len() && blank(ks[i]) {
        skip_blanks_is(ks, i + 1);
    }
}

pub proof fn skip_class_is(ks: Seq<CharClass>, i: int, class: CharClass)
    requires
        0 <= i <= ks.len(),
    ensures
        i <= skip_class(ks, i, class) <= ks.len(),
        forall|j: int| i <= j < skip_class(ks, i, class) ==> ks[j] == class,
        skip_class(ks, i, class) < ks.len() ==> ks[skip_class(ks, i, class)] != class,
    decreases ks.len() - i,
{
    if i < ks.len() && ks[i] == class {
        skip_class_is(ks, i + 1, class);
    }
}

pub proof fn class_start_is(ks: Seq<CharClass>, i: int, class: CharClass)
    requires
        0 <= i <= ks.len(),
    ensures
        0 <= class_start(ks, i, class) <= i,
        class_start(ks, i, class) > 0 ==> ks[class_start(ks, i, class) - 1] != class,
    decreases i,
{
    if i > 0 && ks[i - 1] == class {
        class_start_is(ks, i - 1, class);
    }
}

/// The last cluster at or before a position that is no white space; empty
/// lines are passed over, and the start of the text stops it.
pub open spec fn text_before(t: Seq<char>, n: int, col: int, big: bool) -> (int, int)
    decreases n,
{
    let ks = line_kinds(t, n, big);
    let c = class_start(
        ks,
        if col + 1 < ks.len() {
            col + 1
        } else {
            ks.len() as int
        },
        CharClass::Whitespace,
    );
    if c > 0 {
        (n, c - 1)
    } else if n <= 0 {
        (0, 0)
    } else {
        let len = line_kinds(t, n - 1, big).len() as int;
        text_before(
            t,
            n - 1,
            if len > 0 {
                len - 1
            } else {
                0
            },
            big,
        )
    }
}

/// The position before another, on the same line or at the end of the one above.
pub open spec fn step_back(t: Seq<char>, n: int, col: int, big: bool) -> (int, int) {
    if col > 0 {
        (n, col - 1)
    } else {
        let len = line_kinds(t, n - 1, big).len() as int;
        (
            n - 1,
            if len > 0 {
                len - 1
            } else {
                0
            },
        )
    }
}

/// One step back to the end of a word.
pub open spec fn end_backward(t: Seq<char>, p: Pos, big: bool) -> Pos {
    if p.line >= line_count(t) || (p.col == 0 && p.line == 0) {
        p
    } else {
        let own = line_kinds(t, p.line, big);
        let before = step_back(t, p.line, p.col, big);
        let (n, c) = text_before(t, before.0, before.1, big);
        let ks = line_kinds(t, n, big);
        let class = ks[c];
        if ks.len() == 0 {
            at(n, 0)
        } else if n != p.line || !(p.col < own.len() && own[p.col] == class) || c < p.col - 1 {
            at(n, c)
        } else {
            let s = class_start(ks, c, class);
            if s == 0 && n == 0 {
                p
            } else {
                let again = step_back(t, n, s, big);
                let (line, col) = text_before(t, again.0, again.1, big);
                at(line, col)
            }
        }
    }
}

/// A motion, repeated.
pub open spec fn forward_n(t: Seq<char>, p: Pos, big: bool, n: nat) -> Pos
    decreases n,
{
    if n == 0 {
        p
    } else {
        forward(t, forward_n(t, p, big, (n - 1) as nat), big)
    }
}

pub open spec fn backward_n(t: Seq<char>, p: Pos, big: bool, n: nat) -> Pos
    decreases n,
{
    if n == 0 {
        p
    } else {
        backward(t, backward_n(t, p, big, (n - 1) as nat), big)
    }
}

/// The first step may stay on the word under the cursor.
pub open spec fn end_forward_n(t: Seq<char>, p: Pos, big: bool, current: bool, n: nat) -> Pos
    decreases n,
{
    if n == 0 {
        p
    } else {
        end_forward(
            t,
            end_forward_n(t, p, big, current, (n - 1) as nat),
            big,
            current && n == 1,
        )
    }
}

pub open spec fn end_backward_n(t: Seq<char>, p: Pos, big: bool, n: nat) -> Pos
    decreases n,
{
    if n == 0 {
        p
    } else {
        end_backward(t, end_backward_n(t, p, big, (n - 1) as nat), big)
    }
}

fn skip_whitespace_forward(ks: &Vec<CharClass>, start: usize) -> (i: usize)
    requires
        start <= ks.len(),
    ensures
        i == skip_blanks(ks@, start as int),
        start <= i <= ks.len(),
        i < ks.len() ==> !blank(ks@[i as int]),
{
    let mut i: usize = start;
    while i < ks.len() && ks[i] == CharClass::Whitespace
        invariant
            start <= i <= ks.len(),
            skip_blanks(ks@, i as int) == skip_blanks(ks@, start as int),
        decreases ks.len() - i,
    {
        i += 1;
    }
    i
}

fn skip_class_forward(ks: &Vec<CharClass>, start: usize, class: CharClass) -> (i: usize)
    requires
        start <= ks.len(),
    ensures
        i == skip_class(ks@, start as int, class),
        start <= i <= ks.len(),
{
    let mut i: usize = start;
    while i < ks.len() && ks[i] == class
        invariant
            start <= i <= ks.len(),
            skip_class(ks@, i as int, class) == skip_class(ks@, start as int, class),
        decreases ks.len() - i,
    {
        i += 1;
    }
    i
}

fn skip_class_backward(ks: &Vec<CharClass>, start: usize, class: CharClass) -> (i: usize)
    requires
        start <= ks.len(),
    ensures
        i == class_start(ks@, start as int, class),
        i <= start,
        i > 0 ==> ks@[i - 1] != class,
{
    let mut i: usize = start;
    while i > 0 && ks[i - 1] == class
        invariant
            i <= start <= ks.len(),
            class_start(ks@, i as int, class) == class_start(ks@, start as int, class),
        decreases i,
    {
        i -= 1;
    }
    i
}

fn word_end_at(ks: &Vec<CharClass>, start: usize) -> (i: usize)
    requires
        start < ks.len(),
    ensures
        i == word_last(ks@, start as int),
        start <= i < ks.len(),
{
    match ks[start] {
        CharClass::Whitespace => start,
        CharClass::Cjk => start,
        class => skip_class_forward(ks, start + 1, class) - 1,
    }
}

fn find_next_word_start(buffer: &Buffer, start_line: usize, big: bool) -> (res: Option<
    (usize, usize),
>)
    ensures
        match res {
            Some((line, col)) => next_start(buffer.text(), start_line as int, big) == Some(
                (line as int, col as int),
            ),
            None => next_start(buffer.text(), start_line as int, big) is None,
        },
{
    let count: usize = buffer.line_count();
    let mut n: usize = start_line;
    while n < count
        invariant
            count == line_count(buffer.text()),
            start_line <= n,
            next_start(buffer.text(), n as int, big) == next_start(
                buffer.text(),
                start_line as int,
                big,
            ),
        decreases count - n,
    {
        let ks = classes_of_line(buffer, n, big);
        if ks.len() == 0 {
            return Some((n, 0));
        }
        let c: usize = skip_whitespace_forward(&ks, 0);
        if c < ks.len() {
            return Some((n, c));
        }
        n += 1;
    }
    None
}

fn word_forward_once(buffer: &mut Buffer, big: bool)
    ensures
        cursor_moved(
            old(buffer).model(),
            final(buffer).model(),
            forward(old(buffer).text(), pos_of(old(buffer).model().cursor), big),
        ),
{
    let line: usize = buffer.cursor().line();
    let col: usize = buffer.cursor().col().0;
    if line >= buffer.line_count() {
        return;
    }
    let ks = classes_of_line(buffer, line, big);
    if col < ks.len() {
        let end: usize = match ks[col] {
            CharClass::Whitespace => col,
            CharClass::Cjk => col + 1,
            class => skip_class_forward(&ks, col + 1, class),
        };
        let s: usize = skip_whitespace_forward(&ks, end);
        if s < ks.len() {
            buffer.set_position(line, GraphemeCol(s));
            return;
        }
    }
    if let Some((next_line, next_col)) = find_next_word_start(buffer, line + 1, big) {
        buffer.set_position(next_line, GraphemeCol(next_col));
    }
}

fn find_back(buffer: &Buffer, line: usize, col: usize, big: bool) -> (res: (usize, usize))
    ensures
        (res.0 as int, res.1 as int) == back_from(buffer.text(), line as int, col as int, big),
{
    let mut n: usize = line;
    let mut c: usize = col;
    let ghost goal = back_from(buffer.text(), line as int, col as int, big);
    loop
        invariant
            back_from(buffer.text(), n as int, c as int, big) == goal,
            goal == back_from(buffer.text(), line as int, col as int, big),
        decreases n,
    {
        let ks = classes_of_line(buffer, n, big);
        let from: usize = if c < ks.len() {
            c
        } else {
            ks.len()
        };
        let i: usize = skip_class_backward(&ks, from, CharClass::Whitespace);
        if i > 0 {
            let class = ks[i - 1];
            let start: usize = match class {
                CharClass::Cjk => i - 1,
                _ => skip_class_backward(&ks, i, class),
            };
            return (n, start);
        }
        if n == 0 {
            return (0, 0);
        }
        let len: usize = classes_of_line(buffer, n - 1, big).len();
        if len == 0 {
            return (n - 1, 0);
        }
        n -= 1;
        c = len;
    }
}

fn word_backward_once(buffer: &mut Buffer, big: bool)
    ensures
        cursor_moved(
            old(buffer).model(),
            final(buffer).model(),
            backward(old(buffer).text(), pos_of(old(buffer).model().cursor), big),
        ),
{
    let line: usize = buffer.cursor().line();
    let col: usize = buffer.cursor().col().0;
    if line >= buffer.line_count() || (col == 0 && line == 0) {
        return;
    }
    let (n, c) = if col > 0 {
        find_back(buffer, line, col, big)
    } else {
        let len: usize = classes_of_line(buffer, line - 1, big).len();
        if len == 0 {
            (line - 1, 0)
        } else {
            find_back(buffer, line - 1, len, big)
        }
    };
    buffer.set_position(n, GraphemeCol(c));
}

fn find_next_text(buffer: &Buffer, start_line: usize, big: bool) -> (res: Option<(usize, usize)>)
    ensures
        match res {
            Some((line, col)) => next_text(buffer.text(), start_line as int, big) == Some(
                (line as int, col as int),
            ),
            None => next_text(buffer.text(), start_line as int, big) is None,
        },
{
    let count: usize = buffer.line_count();
    let mut n: usize = start_line;
    while n < count
        invariant
            count == line_count(buffer.text()),
            start_line <= n,
            next_text(buffer.text(), n as int, big) == next_text(
                buffer.text(),
                start_line as int,
                big,
            ),
        decreases count - n,
    {
        let ks = classes_of_line(buffer, n, big);
        let c: usize = skip_whitespace_forward(&ks, 0);
        if c < ks.len() {
            return Some((n, c));
        }
        n += 1;
    }
    None
}

fn word_end_forward_once(buffer: &mut Buffer, big: bool, current: bool)
    ensures
        cursor_moved(
            old(buffer).model(),
            final(buffer).model(),
            end_forward(old(buffer).text(), pos_of(old(buffer).model().cursor), big, current),
        ),
{
    let count: usize = buffer.line_count();
    let ghost t = buffer.text();
    let ghost goal = end_forward(t, pos_of(buffer.model().cursor), big, current);
    loop
        invariant
            count == line_count(t),
            t == buffer.text(),
            buffer.model() == (Buf { cursor: buffer.model().cursor, ..old(buffer).model() }),
            end_forward(t, pos_of(buffer.model().cursor), big, current) == goal,
            goal == end_forward(t, pos_of(old(buffer).model().cursor), big, current),
        decreases count - buffer.model().cursor.at_line(),
    {
        let line: usize = buffer.cursor().line();
        let col: usize = buffer.cursor().col().0;
        if line >= count {
            return;
        }
        proof {
            next_text_is(t, line + 1, big);
        }
        let ks = classes_of_line(buffer, line, big);
        if ks.len() == 0 {
            match find_next_text(buffer, line + 1, big) {
                Some((n, c)) => {
                    buffer.set_position(n, GraphemeCol(c));
                },
                None => {
                    buffer.set_position(count - 1, GraphemeCol(0));
                    return;
                },
            }
        } else {
            let mut from: usize = col;
            if col < ks.len() && ks[col] != CharClass::Whitespace {
                let end: usize = word_end_at(&ks, col);
                if current || col < end {
                    buffer.set_position(line, GraphemeCol(end));
                    return;
                }
                from = col + 1;
            }
            let s: usize = if from < ks.len() {
                skip_whitespace_forward(&ks, from)
            } else {
                from
            };
            if s < ks.len() {
                let end: usize = word_end_at(&ks, s);
                buffer.set_position(line, GraphemeCol(end));
                return;
            }
            if line + 1 < count {
                buffer.set_position(line + 1, GraphemeCol(0));
            } else {
                return;
            }
        }
    }
}

fn skip_whitespace_backward(buffer: &Buffer, line: usize, col: usize, big: bool) -> (res: (
    usize,
    usize,
))
    ensures
        (res.0 as int, res.1 as int) == text_before(buffer.text(), line as int, col as int, big),
{
    let mut n: usize = line;
    let mut c: usize = col;
    let ghost goal = text_before(buffer.text(), line as int, col as int, big);
    loop
        invariant
            text_before(buffer.text(), n as int, c as int, big) == goal,
            goal == text_before(buffer.text(), line as int, col as int, big),
        decreases n,
    {
        let ks = classes_of_line(buffer, n, big);
        let from: usize = if ks.len() > 0 && c < ks.len() - 1 {
            c + 1
        } else {
            ks.len()
        };
        let i: usize = skip_class_backward(&ks, from, CharClass::Whitespace);
        if i > 0 {
            return (n, i - 1);
        }
        if n == 0 {
            return (0, 0);
        }
        n -= 1;
        c = classes_of_line(buffer, n, big).len().saturating_sub(1);
    }
}

fn previous_position(buffer: &Buffer, line: usize, col: usize, big: bool) -> (res: (usize, usize))
    requires
        line > 0 || col > 0,
    ensures
        (res.0 as int, res.1 as int) == step_back(buffer.text(), line as int, col as int, big),
{
    if col > 0 {
        (line, col - 1)
    } else {
        (line - 1, classes_of_line(buffer, line - 1, big).len().saturating_sub(1))
    }
}

proof fn text_before_is(t: Seq<char>, n: int, col: int, big: bool)
    requires
        0 <= n,
        0 <= col,
    ensures
        ({
            let (line, c) = text_before(t, n, col, big);
            &&& 0 <= line <= n
            &&& 0 <= c
            &&& line_kinds(t, line, big).len() > 0 ==> c < line_kinds(t, line, big).len()
        }),
    decreases n,
{
    let ks = line_kinds(t, n, big);
    let from = if col + 1 < ks.len() {
        col + 1
    } else {
        ks.len() as int
    };
    class_start_is(ks, from, CharClass::Whitespace);
    if class_start(ks, from, CharClass::Whitespace) <= 0 && n > 0 {
        let len = line_kinds(t, n - 1, big).len() as int;
        text_before_is(
            t,
            n - 1,
            if len > 0 {
                len - 1
            } else {
                0
            },
            big,
        );
    }
}

fn word_end_backward_once(buffer: &mut Buffer, big: bool)
    ensures
        cursor_moved(
            old(buffer).model(),
            final(buffer).model(),
            end_backward(old(buffer).text(), pos_of(old(buffer).model().cursor), big),
        ),
{
    let line: usize = buffer.cursor().line();
    let col: usize = buffer.cursor().col().0;
    if line >= buffer.line_count() || (col == 0 && line == 0) {
        return;
    }
    let own = classes_of_line(buffer, line, big);
    let (l0, c0) = previous_position(buffer, line, col, big);
    let (n, c) = skip_whitespace_backward(buffer, l0, c0, big);
    proof {
        text_before_is(buffer.text(), l0 as int, c0 as int, big);
    }
    let ks = classes_of_line(buffer, n, big);
    if ks.len() == 0 {
        buffer.set_position(n, GraphemeCol(0));
        return;
    }
    let class = ks[c];
    let same = col < own.len() && own[col] == class;
    if n != line || !same || (col > 0 && c < col - 1) {
        buffer.set_position(n, GraphemeCol(c));
        return;
    }
    let s: usize = skip_class_backward(&ks, c, class);
    if s == 0 && n == 0 {
        return;
    }
    let (l1, c1) = previous_position(buffer, n, s, big);
    let (m, d) = skip_whitespace_backward(buffer, l1, c1, big);
    buffer.set_position(m, GraphemeCol(d));
}

impl Motions {
    /// Moves to the start of a word.
    pub fn word_forward(buffer: &mut Buffer, count: usize)
        ensures
            cursor_moved(
                old(buffer).model(),
                final(buffer).model(),
                forward_n(
                    old(buffer).text(),
                    pos_of(old(buffer).model().cursor),
                    false,
                    count as nat,
                ),
            ),
    {
        Self::repeat_forward(buffer, count, false);
    }

    /// Moves to the start of a blank-separated word.
    pub fn word_forward_big(buffer: &mut Buffer, count: usize)
        ensures
            cursor_moved(
                old(buffer).model(),
                final(buffer).model(),
                forward_n(
                    old(buffer).text(),
                    pos_of(old(buffer).model().cursor),
                    true,
                    count as nat,
                ),
            ),
    {
        Self::repeat_forward(buffer, count, true);
    }

    fn repeat_forward(buffer: &mut Buffer, count: usize, big: bool)
        ensures
            cursor_moved(
                old(buffer).model(),
                final(buffer).model(),
                forward_n(
                    old(buffer).text(),
                    pos_of(old(buffer).model().cursor),
                    big,
                    count as nat,
                ),
            ),
    {
        let mut i: usize = 0;
        while i < count
            invariant
                i <= count,
                cursor_moved(
                    old(buffer).model(),
                    buffer.model(),
                    forward_n(
                        old(buffer).text(),
                        pos_of(old(buffer).model().cursor),
                        big,
                        i as nat,
                    ),
                ),
            decreases count - i,
        {
            word_forward_once(buffer, big);
            i += 1;
        }
    }

    /// Moves back to the start of a word.
    pub fn word_backward(buffer: &mut Buffer, count: usize)
        ensures
            cursor_moved(
                old(buffer).model(),
                final(buffer).model(),
                backward_n(
                    old(buffer).text(),
                    pos_of(old(buffer).model().cursor),
                    false,
                    count as nat,
                ),
            ),
    {
        Self::repeat_backward(buffer, count, false);
    }

    /// Moves back to the start of a blank-separated word.
    pub fn word_backward_big(buffer: &mut Buffer, count: usize)
        ensures
            cursor_moved(
                old(buffer).model(),
                final(buffer).model(),
                backward_n(
                    old(buffer).text(),
                    pos_of(old(buffer).model().cursor),
                    true,
                    count as nat,
                ),
            ),
    {
        Self::repeat_backward(buffer, count, true);
    }

    fn repeat_backward(buffer: &mut Buffer, count: usize, big: bool)
        ensures
            cursor_moved(
                old(buffer).model(),
                final(buffer).model(),
                backward_n(
                    old(buffer).text(),
                    pos_of(old(buffer).model().cursor),
                    big,
                    count as nat,
                ),
            ),
    {
        let mut i: usize = 0;
        while i < count
            invariant
                i <= count,
                cursor_moved(
                    old(buffer).model(),
                    buffer.model(),
                    backward_n(
                        old(buffer).text(),
                        pos_of(old(buffer).model().cursor),
                        big,
                        i as nat,
                    ),
                ),
            decreases count - i,
        {
            word_backward_once(buffer, big);
            i += 1;
        }
    }

    /// Moves to the end of a word.
    pub fn word_end_forward(buffer: &mut Buffer, count: usize)
        ensures
            cursor_moved(
                old(buffer).model(),
                final(buffer).model(),
                end_forward_n(
                    old(buffer).text(),
                    pos_of(old(buffer).model().cursor),
                    false,
                    false,
                    count as nat,
                ),
            ),
    {
        Self::repeat_end_forward(buffer, count, false, false);
    }

    /// Moves to the end of a word; the first step may stay where it is.
    pub fn word_end_forward_prefer_current(buffer: &mut Buffer, count: usize)
        ensures
            cursor_moved(
                old(buffer).model(),
                final(buffer).model(),
                end_forward_n(
                    old(buffer).text(),
                    pos_of(old(buffer).model().cursor),
                    false,
                    true,
                    count as nat,
                ),
            ),
    {
        Self::repeat_end_forward(buffer, count, false, true);
    }

    /// Moves to the end of a blank-separated word.
    pub fn word_end_forward_big(buffer: &mut Buffer, count: usize)
        ensures
            cursor_moved(
                old(buffer).model(),
                final(buffer).model(),
                end_forward_n(
                    old(buffer).text(),
                    pos_of(old(buffer).model().cursor),
                    true,
                    false,
                    count as nat,
                ),
            ),
    {
        Self::repeat_end_forward(buffer, count, true, false);
    }

    /// Moves to the end of a blank-separated word; the first step may stay.
    pub fn word_end_forward_big_prefer_current(buffer: &mut Buffer, count: usize)
        ensures
            cursor_moved(
                old(buffer).model(),
                final(buffer).model(),
                end_forward_n(
                    old(buffer).text(),
                    pos_of(old(buffer).model().cursor),
                    true,
                    true,
                    count as nat,
                ),
            ),
    {
        Self::repeat_end_forward(buffer, count, true, true);
    }

    fn repeat_end_forward(buffer: &mut Buffer, count: usize, big: bool, current: bool)
        ensures
            cursor_moved(
                old(buffer).model(),
                final(buffer).model(),
                end_forward_n(
                    old(buffer).text(),
                    pos_of(old(buffer).model().cursor),
                    big,
                    current,
                    count as nat,
                ),
            ),
    {
        let mut i: usize = 0;
        while i < count
            invariant
                i <= count,
                cursor_moved(
                    old(buffer).model(),
                    buffer.model(),
                    end_forward_n(
                        old(buffer).text(),
                        pos_of(old(buffer).model().cursor),
                        big,
                        current,
                        i as nat,
                    ),
                ),
            decreases count - i,
        {
            word_end_forward_once(buffer, big, current && i == 0);
            i += 1;
        }
    }

    /// Moves back to the end of a word.
    pub fn word_end_backward(buffer: &mut Buffer, count: usize)
        ensures
            cursor_moved(
                old(buffer).model(),
                final(buffer).model(),
                end_backward_n(
                    old(buffer).text(),
                    pos_of(old(buffer).model().cursor),
                    false,
                    count as nat,
                ),
            ),
    {
        Self::repeat_end_backward(buffer, count, false);
    }

    /// Moves back to the end of a blank-separated word.
    pub fn word_end_backward_big(buffer: &mut Buffer, count: usize)
        ensures
            cursor_moved(
                old(buffer).model(),
                final(buffer).model(),
                end_backward_n(
                    old(buffer).text(),
                    pos_of(old(buffer).model().cursor),
                    true,
                    count as nat,
                ),
            ),
    {
        Self::repeat_end_backward(buffer, count, true);
    }

    fn repeat_end_backward(buffer: &mut Buffer, count: usize, big: bool)
        ensures
            cursor_moved(
                old(buffer).model(),
                final(buffer).model(),
                end_backward_n(
                    old(buffer).text(),
                    pos_of(old(buffer).model().cursor),
                    big,
                    count as nat,
                ),
            ),
    {
        let mut i: usize = 0;
        while i < count
            invariant
                i <= count,
                cursor_moved(
                    old(buffer).model(),
                    buffer.model(),
                    end_backward_n(
                        old(buffer).text(),
                        pos_of(old(buffer).model().cursor),
                        big,
                        i as nat,
                    ),
                ),
            decreases count - i,
        {
            word_end_backward_once(buffer, big);
            i += 1;
        }
    }
}

/// A position on a line that the text shows, not behind the line's end.
pub open spec fn on_text(t: Seq<char>, p: Pos, big: bool) -> bool {
    0 <= p.line < line_count(t) && 0 <= p.col <= line_kinds(t, p.line, big).len()
}

/// A position is not before another.
pub open spec fn not_before(p: Pos, q: Pos) -> bool {
    p.line < q.line || (p.line == q.line && p.col <= q.col)
}

/// Forward steps go on, or stay where they are, and never leave the text.
pub proof fn forward_goes_on(t: Seq<char>, p: Pos, big: bool)
    requires
        on_text(t, p, big),
    ensures
        on_text(t, forward(t, p, big), big),
        not_before(p, forward(t, p, big)),
        forward(t, p, big).line == p.line && forward(t, p, big).col == p.col ==> forward(t, p, big)
            == p,
{
    let ks = line_kinds(t, p.line, big);
    next_start_is(t, p.line + 1, big);
    if p.col < ks.len() {
        skip_class_is(ks, p.col + 1, ks[p.col]);
        skip_blanks_is(ks, behind_word(ks, p.col));
        if blank(ks[p.col]) && skip_blanks(ks, p.col) == p.col {
            assert(false);
        }
    }
}

/// Any number of forward steps go on, or stay where they are, and never leave
/// the text.
pub proof fn forward_n_goes_on(t: Seq<char>, p: Pos, big: bool, n: nat)
    requires
        on_text(t, p, big),
    ensures
        on_text(t, forward_n(t, p, big, n), big),
        not_before(p, forward_n(t, p, big, n)),
    decreases n,
{
    if n > 0 {
        forward_n_goes_on(t, p, big, (n - 1) as nat);
        forward_goes_on(t, forward_n(t, p, big, (n - 1) as nat), big);
    }
}

/// Steps add up: as many steps as two counts are those of the one and then
/// those of the other.
pub proof fn forward_counts_add(t: Seq<char>, p: Pos, big: bool, m: nat, n: nat)
    ensures
        forward_n(t, forward_n(t, p, big, m), big, n) == forward_n(t, p, big, m + n),
    decreases n,
{
    if n > 0 {
        forward_counts_add(t, p, big, m, (n - 1) as nat);
    }
}

/// A word starts at a position: on an empty line, or at a cluster that is no
/// white space and is not of the class of the one before it, where a script
/// without blanks has words of one cluster.
pub open spec fn starts_word(t: Seq<char>, q: Pos, big: bool) -> bool {
    let ks = line_kinds(t, q.line, big);
    ||| ks.len() == 0 && q.col == 0
    ||| {
        &&& 0 <= q.col < ks.len()
        &&& !blank(ks[q.col])
        &&& q.col == 0 || ks[q.col - 1] != ks[q.col] || ks[q.col] is Cjk
    }
}

/// A step forward lands where a word starts, or stays where no word follows.
pub proof fn forward_lands_on_words(t: Seq<char>, p: Pos, big: bool)
    requires
        on_text(t, p, big),
    ensures
        starts_word(t, forward(t, p, big), big) || forward(t, p, big) == p,
{
    let ks = line_kinds(t, p.line, big);
    next_start_lands(t, p.line + 1, big);
    if p.col < ks.len() {
        skip_class_is(ks, p.col + 1, ks[p.col]);
        skip_blanks_is(ks, behind_word(ks, p.col));
    }
}

proof fn next_start_lands(t: Seq<char>, n: int, big: bool)
    requires
        0 <= n,
    ensures
        next_start(t, n, big) matches Some((line, col)) ==> starts_word(t, at(line, col), big),
    decreases line_count(t) - n,
{
    if n < line_count(t) {
        skip_blanks_is(line_kinds(t, n, big), 0);
        next_start_lands(t, n + 1, big);
    }
}

proof fn next_start_is(t: Seq<char>, n: int, big: bool)
    requires
        0 <= n,
    ensures
        next_start(t, n, big) matches Some((line, col)) ==> n <= line < line_count(t) && 0 <= col
            <= line_kinds(t, line, big).len(),
    decreases line_count(t) - n,
{
    if n < line_count(t) {
        skip_blanks_is(line_kinds(t, n, big), 0);
        next_start_is(t, n + 1, big);
    }
}

/// Backward steps never go on, and never leave the text.
pub proof fn backward_goes_back(t: Seq<char>, p: Pos, big: bool)
    requires
        on_text(t, p, big),
    ensures
        0 <= backward(t, p, big).line < line_count(t),
        0 <= backward(t, p, big).col,
        not_before(backward(t, p, big), p),
{
    if p.col > 0 {
        back_is(t, p.line, p.col, big);
    } else if p.line > 0 {
        let len = line_kinds(t, p.line - 1, big).len() as int;
        back_is(t, p.line - 1, len, big);
    }
}

proof fn back_is(t: Seq<char>, n: int, col: int, big: bool)
    requires
        0 <= n,
        0 <= col,
    ensures
        ({
            let (line, c) = back_from(t, n, col, big);
            0 <= line <= n && 0 <= c && (line == n ==> c <= col)
        }),
    decreases n,
{
    let ks = line_kinds(t, n, big);
    let from = if col < ks.len() {
        col
    } else {
        ks.len() as int
    };
    class_start_is(ks, from, CharClass::Whitespace);
    let c = class_start(ks, from, CharClass::Whitespace);
    if c > 0 {
        class_start_is(ks, c, ks[c - 1]);
    } else if n > 0 {
        let len = line_kinds(t, n - 1, big).len() as int;
        if len > 0 {
            back_is(t, n - 1, len, big);
        }
    }
}

} // verus!
