//! A text as the list of its lines, and what inserting a text makes of it.
use crate::buffer::{inserted, removed};
use crate::line_edits::{alike_to, breaks_are_alike, lines_are_alike};
use crate::lines::{
    breaks_from, breaks_split, content_end, line_break_from, line_break_is, line_content,
    line_count, line_start, line_start_is, offset_of, raw_line_count,
};
use vstd::prelude::*;

verus! {

/// The stretches that the line feeds cut a text into.
pub open spec fn split_lines(t: Seq<char>) -> Seq<Seq<char>>
    decreases t.len(),
{
    if t.len() == 0 {
        seq![t]
    } else {
        let before = split_lines(t.drop_last());
        if t.last() == '\n' {
            before.push(Seq::empty())
        } else {
            before.drop_last().push(before.last().push(t.last()))
        }
    }
}

proof fn split_is_some(t: Seq<char>)
    ensures
        split_lines(t).len() > 0,
    decreases t.len(),
{
    if t.len() > 0 {
        split_is_some(t.drop_last());
    }
}

/// The lines of two texts, the one behind the other: the last of the first and
/// the first of the second are one.
pub open spec fn lines_joined(a: Seq<Seq<char>>, b: Seq<Seq<char>>) -> Seq<Seq<char>> {
    a.drop_last().push(a.last() + b[0]) + b.skip(1)
}

pub proof fn split_of_joined(a: Seq<char>, b: Seq<char>)
    ensures
        split_lines(a + b) == lines_joined(split_lines(a), split_lines(b)),
        split_lines(a).len() > 0,
        split_lines(b).len() > 0,
    decreases b.len(),
{
    split_is_some(a);
    split_is_some(b);
    let x = split_lines(a);
    if b.len() == 0 {
        assert(a + b =~= a);
        assert(split_lines(b) =~= seq![b]);
        assert(x.last() + b =~= x.last());
        assert(lines_joined(x, split_lines(b)) =~= x);
    } else {
        let rest = b.drop_last();
        split_of_joined(a, rest);
        assert((a + b).drop_last() =~= a + rest);
        assert((a + b).last() == b.last());
        let y = split_lines(rest);
        let z = split_lines(b);
        let all = split_lines(a + b);
        let before = lines_joined(x, y);
        if b.last() == '\n' {
            assert(all =~= before.push(Seq::empty()));
            assert(lines_joined(x, z) =~= all);
        } else {
            assert(all =~= before.drop_last().push(before.last().push(b.last())));
            if y.len() == 1 {
                assert(x.last() + z[0] =~= (x.last() + y[0]).push(b.last()));
                assert(lines_joined(x, z) =~= all);
            } else {
                assert(z[0] == y[0]);
                assert(lines_joined(x, z) =~= all);
            }
        }
    }
}

proof fn no_break_ahead(t: Seq<char>, i: int)
    requires
        0 <= i <= t.len(),
        breaks_from(t, i) == 0,
    ensures
        line_break_from(t, i) == t.len(),
{
    line_break_is(t, i);
}

/// What one more character makes of the lines.
proof fn line_grows(t: Seq<char>, c: char)
    ensures
        ({
            let u = t.push(c);
            let last = (raw_line_count(t) - 1) as nat;
            &&& forall|n: nat| n < last ==> #[trigger] line_content(u, n) == line_content(t, n)
            &&& c == '\n' ==> {
                &&& raw_line_count(u) == raw_line_count(t) + 1
                &&& line_content(u, last) == line_content(t, last)
                &&& line_content(u, last + 1) == Seq::<char>::empty()
            }
            &&& c != '\n' ==> {
                &&& raw_line_count(u) == raw_line_count(t)
                &&& line_content(u, last) == line_content(t, last).push(c)
            }
        }),
{
    let u = t.push(c);
    let last = (raw_line_count(t) - 1) as nat;
    let m = t.len() as int;
    assert(alike_to(t, u, m));
    line_start_is(t, last);
    assert forall|n: nat| n < last implies #[trigger] line_content(u, n) == line_content(t, n) by {
        lines_are_alike(t, u, m, last, n);
        line_start_is(t, n);
        assert(line_content(u, n) =~= line_content(t, n));
    }
    let start = line_start(t, last);
    assert(line_start(u, last) == start) by {
        if last > 0 {
            lines_are_alike(t, u, m, last, (last - 1) as nat);
        }
    }
    no_break_ahead(t, start);
    breaks_are_alike(t, u, m, m);
    breaks_split(t, m);
    breaks_split(u, m);
    assert(breaks_from(u, m + 1) == 0);
    line_break_is(u, start);
    line_break_is(t, start);
    let e = line_break_from(u, start);
    if e < m {
        assert(u[e] == t[e]);
    }
    if c == '\n' {
        assert(e == m) by {
            if e > m {
                assert(u[m] != '\n');
            }
        }
        assert(line_content(u, last) =~= line_content(t, last));
        assert((last + 1 - 1) as nat == last);
        assert(line_start(u, last + 1) == u.len());
        line_break_is(u, u.len() as int);
        assert(line_content(u, last + 1) =~= Seq::<char>::empty());
    } else {
        assert(e == m + 1) by {
            if e == m {
                assert(u[e] == c);
            }
        }
        assert(line_content(u, last) =~= line_content(t, last).push(c));
    }
}

/// Lines are what the line feeds cut a text into. A final line feed ends the
/// last line that is shown; an empty text has one, empty line.
pub proof fn lines_are_split(t: Seq<char>)
    ensures
        raw_line_count(t) == split_lines(t).len(),
        forall|n: nat| n < raw_line_count(t) ==> #[trigger] line_content(t, n) == split_lines(t)[n as int],
        line_count(t) == if t.len() > 0 && t.last() == '\n' {
            split_lines(t).len() - 1
        } else {
            split_lines(t).len() as int
        },
    decreases t.len(),
{
    if t.len() == 0 {
        assert(line_content(t, 0) =~= t);
    } else {
        let s = t.drop_last();
        lines_are_split(s);
        assert(s.push(t.last()) =~= t);
        line_grows(s, t.last());
        split_is_some(s);
    }
}

/// The list of lines with one of them replaced by others.
pub open spec fn line_replaced(list: Seq<Seq<char>>, n: int, by: Seq<Seq<char>>) -> Seq<Seq<char>> {
    list.take(n) + by + list.skip(n as int + 1)
}

/// A text around a line: what stands before it ends a line, and what stands
/// behind it starts with the line's end.
proof fn around_a_line(t: Seq<char>, n: nat, y: Seq<char>)
    requires
        n < raw_line_count(t),
    ensures
        split_lines(t.take(line_start(t, n)) + y + t.skip(content_end(t, n))) == line_replaced(
            split_lines(t),
            n as int,
            split_lines(y),
        ),
{
    line_start_is(t, n);
    let a = t.take(line_start(t, n));
    let x = line_content(t, n);
    let b = t.skip(content_end(t, n));
    assert(a + x + b =~= t);
    split_of_joined(a, x);
    split_of_joined(a + x, b);
    split_of_joined(a, y);
    split_of_joined(a + y, b);
    let sa = split_lines(a);
    let sb = split_lines(b);
    let sx = split_lines(x);
    let sy = split_lines(y);
    let none = Seq::<char>::empty();
    assert(sa.last() == none) by {
        if n > 0 {
            assert(a.last() == '\n');
        }
    }
    assert(sb[0] == none) by {
        line_break_is(t, line_start(t, n));
        if b.len() > 0 {
            assert(b[0] == '\n');
            starts_with_a_break(b);
        }
    }
    no_breaks_one_line(x);
    between_breaks(sa, sx, sb);
    between_breaks(sa, sy, sb);
    assert(sa.len() == n + 1) by {
        lines_are_split(a);
        breaks_split(t, line_start(t, n));
        breaks_split(a, a.len() as int);
        breaks_are_alike(t, a, a.len() as int, a.len() as int);
    }
    let st = split_lines(t);
    assert(st == sa.drop_last() + sx + sb.skip(1));
    assert(st.take(n as int) =~= sa.drop_last());
    assert(st.skip(n as int + 1) =~= sb.skip(1));
}

/// Lines between what ends a line and what starts with a line's end.
proof fn between_breaks(a: Seq<Seq<char>>, y: Seq<Seq<char>>, b: Seq<Seq<char>>)
    requires
        a.len() > 0,
        y.len() > 0,
        b.len() > 0,
        a.last() == Seq::<char>::empty(),
        b[0] == Seq::<char>::empty(),
    ensures
        lines_joined(lines_joined(a, y), b) == a.drop_last() + y + b.skip(1),
{
    let none = Seq::<char>::empty();
    assert(none + y[0] =~= y[0]);
    let ay = lines_joined(a, y);
    assert(ay =~= a.drop_last() + y);
    assert(y.last() + none =~= y.last());
    assert(ay.last() == y.last());
    assert(lines_joined(ay, b) =~= a.drop_last() + y + b.skip(1));
}

proof fn starts_with_a_break(b: Seq<char>)
    requires
        b.len() > 0,
        b[0] == '\n',
    ensures
        split_lines(b)[0] == Seq::<char>::empty(),
        split_lines(b).len() > 1,
    decreases b.len(),
{
    let s = b.drop_last();
    reveal_with_fuel(split_lines, 2);
    if b.len() == 1 {
        assert(s =~= Seq::empty());
    } else {
        assert(s[0] == '\n');
        starts_with_a_break(s);
    }
}

pub proof fn no_breaks_one_line(x: Seq<char>)
    requires
        forall|i: int| 0 <= i < x.len() ==> x[i] != '\n',
    ensures
        split_lines(x) == seq![x],
    decreases x.len(),
{
    if x.len() > 0 {
        no_breaks_one_line(x.drop_last());
        assert(x.drop_last().push(x.last()) =~= x);
        assert(split_lines(x) =~= seq![x]);
    }
}

/// Inserting a text into a line changes that line alone: in its place are the
/// lines of the line with the text in it.
pub proof fn insertion_changes_one_line(t: Seq<char>, n: nat, col: nat, new: Seq<char>)
    requires
        n < raw_line_count(t),
        col <= line_content(t, n).len(),
    ensures
        ({
            let x = line_content(t, n);
            split_lines(inserted(t, offset_of(t, n, col), new)) == line_replaced(
                split_lines(t),
                n as int,
                split_lines(x.take(col as int) + new + x.skip(col as int)),
            )
        }),
{
    line_start_is(t, n);
    let x = line_content(t, n);
    let at = offset_of(t, n, col);
    let y = x.take(col as int) + new + x.skip(col as int);
    assert(at == line_start(t, n) + col);
    assert(inserted(t, at, new) =~= t.take(line_start(t, n)) + y + t.skip(content_end(t, n)));
    around_a_line(t, n, y);
}

/// Taking a stretch out of a line changes that line alone.
pub proof fn removal_changes_one_line(t: Seq<char>, n: nat, from: nat, to: nat)
    requires
        n < raw_line_count(t),
        from <= to <= line_content(t, n).len(),
    ensures
        ({
            let x = line_content(t, n);
            split_lines(removed(t, offset_of(t, n, from), offset_of(t, n, to))) == line_replaced(
                split_lines(t),
                n as int,
                seq![x.take(from as int) + x.skip(to as int)],
            )
        }),
{
    line_start_is(t, n);
    let x = line_content(t, n);
    let y = x.take(from as int) + x.skip(to as int);
    assert(removed(t, offset_of(t, n, from), offset_of(t, n, to)) =~= t.take(line_start(t, n)) + y
        + t.skip(content_end(t, n)));
    no_breaks_one_line(y);
    around_a_line(t, n, y);
}

} // verus!
