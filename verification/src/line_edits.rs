//! A change inside one line leaves the other lines as they are.
use crate::buffer::removed;
use crate::lines::{
    breaks_before, breaks_from, breaks_split, content_end, line_break_from, line_break_is,
    line_content, line_of_position, line_start, line_start_is, line_starts_grow, raw_line_count,
};
use vstd::prelude::*;

verus! {

/// Two texts begin alike.
pub open spec fn alike_to(t: Seq<char>, u: Seq<char>, m: int) -> bool {
    &&& 0 <= m <= t.len()
    &&& m <= u.len()
    &&& forall|i: int| 0 <= i < m ==> t[i] == #[trigger] u[i]
}

proof fn break_is_alike(t: Seq<char>, u: Seq<char>, m: int, i: int)
    requires
        alike_to(t, u, m),
        0 <= i,
        line_break_from(t, i) < m,
    ensures
        line_break_from(u, i) == line_break_from(t, i),
    decreases t.len() - i,
{
    if i < t.len() {
        if t[i] != '\n' {
            line_break_is(t, i + 1);
            break_is_alike(t, u, m, i + 1);
        }
    }
}

pub proof fn breaks_are_alike(t: Seq<char>, u: Seq<char>, m: int, i: int)
    requires
        alike_to(t, u, m),
        0 <= i <= m,
    ensures
        breaks_before(u, i) == breaks_before(t, i),
    decreases i,
{
    if i > 0 {
        breaks_are_alike(t, u, m, i - 1);
    }
}

/// Lines that end in a common beginning are the same lines.
pub proof fn lines_are_alike(t: Seq<char>, u: Seq<char>, m: int, line: nat, n: nat)
    requires
        alike_to(t, u, m),
        n < line < raw_line_count(t),
        line_start(t, line) <= m,
    ensures
        line_start(u, n) == line_start(t, n),
        content_end(u, n) == content_end(t, n),
        content_end(t, n) < m,
        line_start(t, n + 1) == content_end(t, n) + 1,
    decreases n,
{
    line_start_is(t, n);
    line_start_is(t, n + 1);
    line_starts_grow(t, n + 1, line);
    line_break_is(t, line_start(t, n));
    assert(content_end(t, n) < t.len());
    assert(line_start(t, n + 1) == content_end(t, n) + 1);
    if n > 0 {
        lines_are_alike(t, u, m, line, (n - 1) as nat);
        line_start_is(t, (n - 1) as nat);
        line_break_is(t, line_start(t, (n - 1) as nat));
    }
    break_is_alike(t, u, m, line_start(t, n));
}

/// The text with a stretch replaced.
pub open spec fn respliced(t: Seq<char>, from: int, to: int, new: Seq<char>) -> Seq<char> {
    t.take(from) + new + t.skip(to)
}

/// Behind a place, the second text is the first one, `d` further on.
spec fn moved_behind(t: Seq<char>, u: Seq<char>, to: int, d: int) -> bool {
    &&& 0 <= to <= t.len()
    &&& 0 <= to + d
    &&& u.len() == t.len() + d
    &&& forall|i: int| to <= i < t.len() ==> t[i] == #[trigger] u[i + d]
}

proof fn break_moves(t: Seq<char>, u: Seq<char>, to: int, d: int, i: int)
    requires
        moved_behind(t, u, to, d),
        to <= i <= t.len(),
    ensures
        line_break_from(u, i + d) == line_break_from(t, i) + d,
        breaks_from(u, i + d) == breaks_from(t, i),
    decreases t.len() - i,
{
    if i < t.len() {
        assert(u[i + d] == t[i]);
        break_moves(t, u, to, d, i + 1);
    }
}

/// Where no line feed stands, none is passed.
proof fn no_break_between(t: Seq<char>, i: int, j: int)
    requires
        0 <= i <= j <= t.len(),
        forall|k: int| i <= k < j ==> t[k] != '\n',
    ensures
        line_break_from(t, i) == line_break_from(t, j),
        breaks_from(t, i) == breaks_from(t, j),
    decreases j - i,
{
    if i < j {
        no_break_between(t, i + 1, j);
    }
}

proof fn lines_below_move(t: Seq<char>, u: Seq<char>, to: int, d: int, line: nat, n: nat)
    requires
        moved_behind(t, u, to, d),
        line < n,
        to <= content_end(t, line),
        content_end(u, line) == content_end(t, line) + d,
    ensures
        line_start(u, n) == line_start(t, n) + d,
        to <= line_start(t, n) <= t.len(),
        content_end(u, n) == content_end(t, n) + d,
    decreases n,
{
    let before = (n - 1) as nat;
    line_start_is(t, before);
    line_start_is(t, n);
    if before > line {
        lines_below_move(t, u, to, d, line, before);
    }
    break_moves(t, u, to, d, line_start(t, n));
}

/// Replacing a stretch inside a line, by a text without line feeds, changes
/// that line alone.
pub proof fn line_alone_changes(t: Seq<char>, line: nat, g: int, new: Seq<char>)
    requires
        line < raw_line_count(t),
        0 <= g <= line_content(t, line).len(),
        forall|k: int| 0 <= k < new.len() ==> new[k] != '\n',
    ensures
        ({
            let from = line_start(t, line);
            let u = respliced(t, from, from + g, new);
            &&& raw_line_count(u) == raw_line_count(t)
            &&& line_start(u, line) == from
            &&& line_content(u, line) == new + line_content(t, line).skip(g)
            &&& forall|n: nat| n != line ==> #[trigger] line_content(u, n) == line_content(t, n)
        }),
{
    let from = line_start(t, line);
    let to = from + g;
    let u = respliced(t, from, to, new);
    let d = new.len() - g;
    line_start_is(t, line);
    assert(alike_to(t, u, from));
    assert(moved_behind(t, u, to, d));
    assert(forall|k: int| from <= k < to + d ==> u[k] == #[trigger] new[k - from]);
    assert forall|k: int| from <= k < to + d implies u[k] != '\n' by {
        assert(u[k] == new[k - from]);
    }
    if line > 0 {
        lines_are_alike(t, u, from, line, (line - 1) as nat);
        line_start_is(u, (line - 1) as nat);
    }
    assert(line_start(u, line) == from);
    no_break_between(u, from, to + d);
    no_break_between(t, from, to);
    break_moves(t, u, to, d, to);
    assert(content_end(u, line) == content_end(t, line) + d);
    line_start_is(u, line);
    assert(line_content(u, line) =~= new + line_content(t, line).skip(g)) by {
        let a = line_content(u, line);
        let b = new + line_content(t, line).skip(g);
        assert(a.len() == b.len());
        assert forall|k: int| 0 <= k < a.len() implies a[k] == b[k] by {
            if k >= new.len() {
                assert(u[(from + k - d) + d] == t[from + k - d]);
            } else {
                assert(u[from + k] == new[k]);
            }
        }
    }
    breaks_are_alike(t, u, from, from);
    breaks_split(t, from);
    breaks_split(u, from);
    assert forall|n: nat| n != line implies #[trigger] line_content(u, n) == line_content(t, n) by {
        if n < line {
            lines_are_alike(t, u, from, line, n);
            line_start_is(t, n);
            assert(line_content(u, n) =~= line_content(t, n));
        } else {
            lines_below_move(t, u, to, d, line, n);
            line_start_is(t, n);
            let a = line_content(u, n);
            let b = line_content(t, n);
            assert(a.len() == b.len());
            assert forall|k: int| 0 <= k < a.len() implies a[k] == b[k] by {
                assert(u[(line_start(t, n) + k) + d] == t[line_start(t, n) + k]);
            }
            assert(a =~= b);
        }
    }
}

/// Lines behind a stretch that was taken out move up by the lines that it
/// joined.
proof fn lines_below_move_up(
    t: Seq<char>,
    u: Seq<char>,
    to: int,
    d: int,
    l1: nat,
    l2: nat,
    n: nat,
)
    requires
        moved_behind(t, u, to, d),
        l1 <= l2 < n,
        to <= content_end(t, l2),
        content_end(u, l1) == content_end(t, l2) + d,
    ensures
        line_start(u, (n - (l2 - l1)) as nat) == line_start(t, n) + d,
        to <= line_start(t, n) <= t.len(),
        content_end(u, (n - (l2 - l1)) as nat) == content_end(t, n) + d,
    decreases n,
{
    let before = (n - 1) as nat;
    line_start_is(t, before);
    line_start_is(t, n);
    if before > l2 {
        lines_below_move_up(t, u, to, d, l1, l2, before);
    }
    break_moves(t, u, to, d, line_start(t, n));
}

/// Taking out a stretch from a line to a line joins what is left of the two,
/// and leaves the lines above and below as they are.
pub proof fn stretch_taken_out(t: Seq<char>, l1: nat, from: int, l2: nat, to: int)
    requires
        l1 <= l2 < raw_line_count(t),
        line_start(t, l1) <= from <= content_end(t, l1),
        line_start(t, l2) <= to <= content_end(t, l2),
        from <= to,
    ensures
        ({
            let u = removed(t, from, to);
            &&& raw_line_count(u) + (l2 - l1) == raw_line_count(t)
            &&& line_start(u, l1) == line_start(t, l1)
            &&& line_content(u, l1) == t.subrange(line_start(t, l1), from) + t.subrange(
                to,
                content_end(t, l2),
            )
            &&& forall|n: nat| n < l1 ==> #[trigger] line_content(u, n) == line_content(t, n)
            &&& forall|n: nat|
                n > l2 ==> #[trigger] line_content(t, n) == line_content(
                    u,
                    (n - (l2 - l1)) as nat,
                )
        }),
{
    let u = removed(t, from, to);
    let d = from - to;
    let start = line_start(t, l1);
    line_start_is(t, l1);
    line_start_is(t, l2);
    assert(alike_to(t, u, from));
    assert(moved_behind(t, u, to, d));
    if l1 > 0 {
        lines_are_alike(t, u, from, l1, (l1 - 1) as nat);
        line_start_is(u, (l1 - 1) as nat);
    }
    assert(line_start(u, l1) == start);
    no_break_between(u, start, from);
    no_break_between(t, line_start(t, l2), to);
    break_moves(t, u, to, d, to);
    assert(content_end(u, l1) == content_end(t, l2) + d);
    line_start_is(u, l1);
    assert(line_content(u, l1) =~= t.subrange(start, from) + t.subrange(to, content_end(t, l2)));
    line_of_position(t, l1, from);
    line_of_position(t, l2, to);
    breaks_are_alike(t, u, from, from);
    breaks_split(t, to);
    breaks_split(u, from);
    assert forall|n: nat| n < l1 implies #[trigger] line_content(u, n) == line_content(t, n) by {
        lines_are_alike(t, u, from, l1, n);
        line_start_is(t, n);
        assert(line_content(u, n) =~= line_content(t, n));
    }
    assert forall|n: nat| n > l2 implies #[trigger] line_content(t, n) == line_content(
        u,
        (n - (l2 - l1)) as nat,
    ) by {
        lines_below_move_up(t, u, to, d, l1, l2, n);
        line_start_is(t, n);
        let a = line_content(u, (n - (l2 - l1)) as nat);
        let b = line_content(t, n);
        assert(a.len() == b.len());
        assert forall|k: int| 0 <= k < a.len() implies a[k] == b[k] by {
            assert(u[(line_start(t, n) + k) + d] == t[line_start(t, n) + k]);
        }
        assert(a =~= b);
    }
}

} // verus!
