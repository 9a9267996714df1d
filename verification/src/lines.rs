//! Lines of a text: where they start, what they hold, how many there are.
//!
//! A line ends at a line feed, which belongs to no line's content.
use vstd::prelude::*;

verus! {

/// The first line feed at or after `i`, or the end of the text.
pub open spec fn line_break_from(t: Seq<char>, i: int) -> int
    decreases t.len() - i,
{
    if i < 0 || i >= t.len() {
        t.len() as int
    } else if t[i] == '\n' {
        i
    } else {
        line_break_from(t, i + 1)
    }
}

/// How many line feeds stand at or after `i`.
pub open spec fn breaks_from(t: Seq<char>, i: int) -> nat
    decreases t.len() - i,
{
    if i < 0 || i >= t.len() {
        0
    } else {
        breaks_from(t, i + 1) + if t[i] == '\n' {
            1nat
        } else {
            0nat
        }
    }
}

/// How many line feeds stand before `i`.
pub open spec fn breaks_before(t: Seq<char>, i: int) -> nat
    decreases i,
{
    if i <= 0 || i > t.len() {
        0
    } else {
        breaks_before(t, i - 1) + if t[i - 1] == '\n' {
            1nat
        } else {
            0nat
        }
    }
}

/// How many stretches the line feeds cut the text into.
pub open spec fn raw_line_count(t: Seq<char>) -> nat {
    breaks_from(t, 0) + 1
}

/// How many lines the text shows: the empty stretch behind a final line feed
/// is no line of its own.
pub open spec fn line_count(t: Seq<char>) -> nat {
    if t.len() > 0 && t.last() == '\n' {
        (raw_line_count(t) - 1) as nat
    } else {
        raw_line_count(t)
    }
}

/// Where line `n` starts; the end of the text behind the last line.
pub open spec fn line_start(t: Seq<char>, n: nat) -> int
    decreases n,
{
    if n == 0 {
        0
    } else {
        let b = line_break_from(t, line_start(t, (n - 1) as nat));
        if b < t.len() {
            b + 1
        } else {
            t.len() as int
        }
    }
}

/// Where the content of line `n` ends.
pub open spec fn content_end(t: Seq<char>, n: nat) -> int {
    line_break_from(t, line_start(t, n))
}

/// What line `n` holds, without its line feed.
pub open spec fn line_content(t: Seq<char>, n: nat) -> Seq<char> {
    t.subrange(line_start(t, n), content_end(t, n))
}

/// The position in the text that line `n`, column `col` addresses: columns
/// behind the content address its end, lines behind the text its end.
pub open spec fn offset_of(t: Seq<char>, n: nat, col: nat) -> int {
    if n >= raw_line_count(t) {
        t.len() as int
    } else if line_start(t, n) + col < content_end(t, n) {
        line_start(t, n) + col
    } else {
        content_end(t, n)
    }
}

pub proof fn line_break_is(t: Seq<char>, i: int)
    requires
        0 <= i <= t.len(),
    ensures
        i <= line_break_from(t, i) <= t.len(),
        line_break_from(t, i) < t.len() ==> t[line_break_from(t, i)] == '\n',
        forall|j: int| i <= j < line_break_from(t, i) ==> t[j] != '\n',
        line_break_from(t, i) < t.len() ==> breaks_from(t, i) == breaks_from(
            t,
            line_break_from(t, i) + 1,
        ) + 1,
        line_break_from(t, i) == t.len() ==> breaks_from(t, i) == 0,
    decreases t.len() - i,
{
    if i < t.len() && t[i] != '\n' {
        line_break_is(t, i + 1);
    }
}

/// Line `n` starts inside the text, and behind it are the lines not yet counted.
pub proof fn line_start_is(t: Seq<char>, n: nat)
    ensures
        0 <= line_start(t, n) <= content_end(t, n) <= t.len(),
        n < raw_line_count(t) ==> breaks_from(t, line_start(t, n)) == breaks_from(t, 0) - n,
        n >= raw_line_count(t) ==> line_start(t, n) == t.len(),
        0 < n < raw_line_count(t) ==> line_start(t, n) > 0 && t[line_start(t, n) - 1] == '\n',
        forall|j: int| line_start(t, n) <= j < content_end(t, n) ==> t[j] != '\n',
    decreases n,
{
    if n > 0 {
        line_start_is(t, (n - 1) as nat);
        line_break_is(t, line_start(t, (n - 1) as nat));
        if n >= raw_line_count(t) && (n - 1) < raw_line_count(t) {
            assert(breaks_from(t, line_start(t, (n - 1) as nat)) == 0);
        }
    }
    line_break_is(t, line_start(t, n));
}

/// Lines start in order.
pub proof fn line_starts_grow(t: Seq<char>, m: nat, n: nat)
    requires
        m <= n,
    ensures
        line_start(t, m) <= line_start(t, n),
        m < n ==> content_end(t, m) <= line_start(t, n),
    decreases n - m,
{
    line_start_is(t, m);
    line_start_is(t, n);
    if m < n {
        line_starts_grow(t, m, (n - 1) as nat);
        line_start_is(t, (n - 1) as nat);
        line_break_is(t, line_start(t, (n - 1) as nat));
        if m == n - 1 {
        }
    }
}

/// The content of a line, its start and its end, inside the text.
pub proof fn offset_is(t: Seq<char>, n: nat, col: nat)
    ensures
        0 <= offset_of(t, n, col) <= t.len(),
{
    line_start_is(t, n);
}

/// Every line feed lies before or at and after a position.
pub proof fn breaks_split(t: Seq<char>, i: int)
    requires
        0 <= i <= t.len(),
    ensures
        breaks_before(t, i) + breaks_from(t, i) == breaks_from(t, 0),
    decreases i,
{
    if i > 0 {
        breaks_split(t, i - 1);
    }
}

/// A line with a position inside it is the line that the line feeds before
/// the position number.
pub proof fn line_of_position(t: Seq<char>, n: nat, i: int)
    requires
        n < raw_line_count(t),
        line_start(t, n) <= i <= content_end(t, n),
    ensures
        breaks_before(t, i) == n,
    decreases i - line_start(t, n),
{
    line_start_is(t, n);
    breaks_split(t, i);
    breaks_split(t, line_start(t, n));
    if i > line_start(t, n) {
        line_of_position(t, n, i - 1);
    }
}

} // verus!
