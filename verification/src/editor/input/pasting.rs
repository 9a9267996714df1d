//! What pasting, changing a selection's characters, and the keys of text
//! objects come to, said of the lines of the text.
use crate::buffer::{inserted, removed, Buf};
use crate::editor::input::paste::{
    as_lines, expanded, pasted, rows_of, times, with_row, with_rows, BlockPaste,
};
use crate::editor::input::text_objects::{object_of, TextObjectType};
use crate::editor::input::typing::unbroken;
use crate::editor::input::visual::{
    lowercase_of, relined, retexted, selection_transformed, toggled, uppercase, uppercase_of,
    Transform,
};
use crate::editor::keys::KeyCode;
use crate::editor::register::RegisterType;
use crate::editor::{char_range, range_offsets, Mode};
use crate::fmt::{joined, repeated};
use crate::line_lists::{
    insertion_changes_one_line, line_replaced, lines_are_split, lines_joined, no_breaks_one_line,
    removal_changes_one_line, split_lines, split_of_joined,
};
use crate::lines::{
    content_end, line_break_is, line_content, line_count, line_start, line_start_is, offset_of,
    raw_line_count,
};
use crate::unicode::{char_col_of, graphemes_of};
use vstd::prelude::*;

verus! {

/// Pasting characters puts them into the cursor's line, before the cluster
/// under the cursor or behind it, and changes no other line.
pub proof fn characters_are_pasted_at_the_cursor(b: Buf, text: Seq<char>, behind: bool)
    requires
        !b.read_only,
        0 <= b.line() < line_count(b.text),
        0 <= b.col() < usize::MAX,
        b.col() <= graphemes_of(b.here()).len(),
        char_col_of(b.here(), b.col() as nat) <= b.here().len(),
        char_col_of(b.here(), (b.col() + 1) as nat) <= b.here().len(),
    ensures
        ({
            let x = b.here();
            let clusters = graphemes_of(x).len();
            let k = if behind && b.col() < clusters {
                (b.col() + 1) as nat
            } else {
                b.col() as nat
            };
            let c = char_col_of(x, k) as int;
            split_lines(pasted(b, text, RegisterType::Character, behind).0.text) == line_replaced(
                split_lines(b.text),
                b.line(),
                split_lines(x.take(c) + text + x.skip(c)),
            )
        }),
{
    let x = b.here();
    let n = b.line() as nat;
    let clusters = graphemes_of(x).len();
    let k = if behind && b.col() < clusters {
        (b.col() + 1) as nat
    } else {
        b.col() as nat
    };
    let c = char_col_of(x, k);
    line_start_is(b.text, n);
    insertion_changes_one_line(b.text, n, c, text);
    if text.len() == 0 {
        assert(inserted(b.text, offset_of(b.text, n, c), text) =~= b.text);
    }
}

/// A text as whole lines: it ends with a line feed, and has one more only where
/// it had none at its end.
pub proof fn lines_end_with_a_feed(t: Seq<char>)
    ensures
        as_lines(t).len() > 0,
        as_lines(t).last() == '\n',
        as_lines(t) == t || as_lines(t) == t.push('\n'),
        t.len() > 0 && t.last() == '\n' ==> as_lines(t) == t,
{
}

/// The lines of a text that ends with a line feed.
pub open spec fn whole_lines(t: Seq<char>) -> Seq<Seq<char>> {
    split_lines(t).drop_last()
}

proof fn lines_put_before(t: Seq<char>, n: nat, new: Seq<char>)
    requires
        n < raw_line_count(t),
        new.len() > 0,
        new.last() == '\n',
    ensures
        split_lines(inserted(t, offset_of(t, n, 0), new)) == split_lines(t).take(n as int)
            + whole_lines(new) + split_lines(t).skip(n as int),
{
    let x = line_content(t, n);
    let list = split_lines(t);
    line_start_is(t, n);
    lines_are_split(t);
    insertion_changes_one_line(t, n, 0, new);
    assert(x.take(0) + new + x.skip(0) =~= new + x);
    split_of_joined(new, x);
    no_breaks_one_line(x);
    let none = Seq::<char>::empty();
    assert(split_lines(new).last() == none);
    assert(none + x =~= x);
    assert(lines_joined(split_lines(new), seq![x]) =~= whole_lines(new).push(x));
    assert(list[n as int] == x);
    assert(line_replaced(list, n as int, whole_lines(new).push(x)) =~= list.take(n as int)
        + whole_lines(new) + list.skip(n as int));
}

/// Pasting lines puts them before the cursor's line or behind it, whole, in
/// their order, and changes no other line.
pub proof fn lines_are_pasted_whole(b: Buf, text: Seq<char>, behind: bool)
    requires
        !b.read_only,
        0 <= b.line() < line_count(b.text),
        behind ==> content_end(b.text, b.line() as nat) < b.text.len() && !(line_count(b.text) == 1
            && b.here().len() == 0),
    ensures
        ({
            let list = split_lines(b.text);
            let n = if behind {
                b.line() + 1
            } else {
                b.line()
            };
            split_lines(pasted(b, text, RegisterType::Line, behind).0.text) == list.take(n)
                + whole_lines(as_lines(text)) + list.skip(n)
        }),
{
    let t = b.text;
    let n = b.line() as nat;
    line_start_is(t, n);
    if behind {
        line_break_is(t, line_start(t, n));
        assert(n + 1 < raw_line_count(t)) by {
            if n + 1 >= raw_line_count(t) {
                assert(crate::lines::breaks_from(t, line_start(t, n)) == 0);
            }
        }
        lines_put_before(t, n + 1, as_lines(text));
    } else {
        lines_put_before(t, n, as_lines(text));
    }
}

/// Behind a last line that no line feed ends, pasted lines follow as well.
pub proof fn lines_are_pasted_behind_the_last(b: Buf, text: Seq<char>)
    requires
        !b.read_only,
        0 <= b.line() < line_count(b.text),
        content_end(b.text, b.line() as nat) == b.text.len(),
        !(line_count(b.text) == 1 && line_content(b.text, 0).len() == 0),
    ensures
        ({
            let list = split_lines(b.text);
            split_lines(pasted(b, text, RegisterType::Line, true).0.text) == list.take(b.line() + 1)
                + split_lines(as_lines(text))
        }),
{
    let t = b.text;
    let n = b.line() as nat;
    let x = line_content(t, n);
    let list = split_lines(t);
    let new = seq!['\n'] + as_lines(text);
    line_start_is(t, n);
    line_break_is(t, line_start(t, n));
    lines_are_split(t);
    insertion_changes_one_line(t, n, x.len(), new);
    assert(x.take(x.len() as int) + new + x.skip(x.len() as int) =~= x + seq!['\n'] + as_lines(
        text,
    ));
    behind_a_break(x, as_lines(text));
    assert(n + 1 == raw_line_count(t));
    assert(line_replaced(list, n as int, seq![x] + split_lines(as_lines(text))) =~= list.take(
        n as int + 1,
    ) + split_lines(as_lines(text)));
}

proof fn behind_a_break(a: Seq<char>, z: Seq<char>)
    requires
        unbroken(a),
    ensures
        split_lines(a + seq!['\n'] + z) == seq![a] + split_lines(z),
{
    let end = seq!['\n'];
    no_breaks_one_line(a);
    split_of_joined(a, end);
    split_of_joined(a + end, z);
    reveal_with_fuel(split_lines, 2);
    assert(end.drop_last() =~= Seq::<char>::empty());
    let none = Seq::<char>::empty();
    assert(split_lines(end) =~= seq![none, none]);
    assert(a + none =~= a);
    assert(split_lines(a + end) =~= seq![a, none]);
    assert(none + split_lines(z)[0] =~= split_lines(z)[0]);
    assert(lines_joined(split_lines(a + end), split_lines(z)) =~= seq![a] + split_lines(z));
}

/// A count repeats what is pasted: once is the text, and two counts together
/// are the one and then the other.
pub proof fn counts_repeat_texts(t: Seq<char>, m: nat, n: nat)
    ensures
        times(t, 1) == t,
        times(t, m + n) == times(t, m) + times(t, n),
    decreases n,
{
    reveal_with_fuel(times, 2);
    assert(times(t, 1) =~= t);
    if n > 0 {
        counts_repeat_texts(t, m, (n - 1) as nat);
        assert((m + n - 1) as nat == m + (n - 1) as nat);
        assert(times(t, m + n) =~= times(t, m) + times(t, n));
    } else {
        assert(times(t, m + n) =~= times(t, m) + times(t, n));
    }
}

/// Lines joined by line feeds are those lines.
proof fn joined_lines_split(rows: Seq<Seq<char>>, k: int)
    requires
        0 < k <= rows.len(),
        forall|i: int| 0 <= i < rows.len() ==> unbroken(#[trigger] rows[i]),
    ensures
        split_lines(joined(rows, k, "\n"@)) == rows.take(k),
    decreases k,
{
    reveal_strlit("\n");
    assert("\n"@ =~= seq!['\n']);
    assert(unbroken(rows[k - 1]));
    no_breaks_one_line(rows[k - 1]);
    if k == 1 {
        assert(rows.take(1) =~= seq![rows[0]]);
    } else {
        joined_lines_split(rows, k - 1);
        let before = joined(rows, k - 1, "\n"@);
        let last = rows[k - 1];
        split_of_joined(before + seq!['\n'], last);
        assert((before + seq!['\n']).drop_last() =~= before);
        let none = Seq::<char>::empty();
        assert(split_lines(before + seq!['\n']) == rows.take(k - 1).push(none));
        assert(none + last =~= last);
        assert(lines_joined(rows.take(k - 1).push(none), seq![last]) =~= rows.take(k));
    }
}

proof fn times_unbroken(t: Seq<char>, n: nat)
    requires
        unbroken(t),
    ensures
        unbroken(times(t, n)),
    decreases n,
{
    if n > 0 {
        times_unbroken(t, (n - 1) as nat);
        let before = times(t, (n - 1) as nat);
        let all = before + t;
        assert forall|i: int| 0 <= i < all.len() implies all[i] != '\n' by {
            if i < before.len() {
                assert(all[i] == before[i]);
            } else {
                assert(all[i] == t[i - before.len()]);
            }
        }
    }
}

/// A counted paste: characters and whole lines are repeated one behind the
/// other, and each row of a block is repeated sideways, so that a block keeps
/// its rows.
pub proof fn counted_pastes(t: Seq<char>, count: nat)
    requires
        count > 0,
    ensures
        expanded(t, RegisterType::Character, count) == times(t, count),
        count > 1 ==> expanded(t, RegisterType::Line, count) == times(as_lines(t), count),
        count == 1 ==> expanded(t, RegisterType::Line, count) == t,
        split_lines(expanded(t, RegisterType::Block, count)).len() == split_lines(t).len(),
        forall|i: int|
            0 <= i < split_lines(t).len() ==> #[trigger] split_lines(
                expanded(t, RegisterType::Block, count),
            )[i] == times(split_lines(t)[i], count),
{
    counts_repeat_texts(t, 0, 1);
    lines_are_split(t);
    if count > 1 {
        let rows = rows_of(t).map_values(|r: Seq<char>| times(r, count));
        assert forall|i: int| 0 <= i < rows.len() implies unbroken(#[trigger] rows[i]) by {
            line_start_is(t, i as nat);
            assert(unbroken(line_content(t, i as nat)));
            times_unbroken(line_content(t, i as nat), count);
        }
        joined_lines_split(rows, rows.len() as int);
        assert(rows.take(rows.len() as int) =~= rows);
        assert forall|i: int| 0 <= i < split_lines(t).len() implies #[trigger] split_lines(
            expanded(t, RegisterType::Block, count),
        )[i] == times(split_lines(t)[i], count) by {
            assert(split_lines(t)[i] == line_content(t, i as nat));
        }
    } else {
        assert forall|i: int| 0 <= i < split_lines(t).len() implies #[trigger] split_lines(
            expanded(t, RegisterType::Block, count),
        )[i] == times(split_lines(t)[i], count) by {
            counts_repeat_texts(split_lines(t)[i], 0, 1);
        }
    }
}

/// A line with a row put at a column: blanks fill a line that is too short.
pub open spec fn row_put(x: Seq<char>, col: int, row: Seq<char>) -> Seq<char> {
    let clusters = graphemes_of(x).len();
    if col > clusters {
        x + repeated(' ', col - clusters) + row
    } else {
        let c = char_col_of(x, col as nat) as int;
        x.take(c) + row + x.skip(c)
    }
}

proof fn unbroken_put(x: Seq<char>, col: int, row: Seq<char>)
    requires
        unbroken(x),
        unbroken(row),
        0 <= col,
        char_col_of(x, col as nat) <= x.len(),
    ensures
        unbroken(row_put(x, col, row)),
{
    let y = row_put(x, col, row);
    let clusters = graphemes_of(x).len();
    if col > clusters {
        let blanks = repeated(' ', col - clusters);
        assert forall|i: int| 0 <= i < y.len() implies y[i] != '\n' by {
            if i < x.len() {
                assert(y[i] == x[i]);
            } else if i < x.len() + blanks.len() {
                assert(y[i] == blanks[i - x.len()]);
            } else {
                assert(y[i] == row[i - x.len() - blanks.len()]);
            }
        }
    } else {
        let c = char_col_of(x, col as nat) as int;
        assert forall|i: int| 0 <= i < y.len() implies y[i] != '\n' by {
            if i < c {
                assert(y[i] == x[i]);
            } else if i < c + row.len() {
                assert(y[i] == row[i - c]);
            } else {
                assert(y[i] == x[i - row.len()]);
            }
        }
    }
}

/// A row of a block goes into its line at the block's column; behind the last
/// line it makes a line of its own, filled with blanks up to the column.
pub proof fn rows_go_into_their_lines(p: BlockPaste, target: int, col: int, row: Seq<char>)
    requires
        !p.buf.read_only,
        0 <= target,
        0 <= col,
        unbroken(row),
        target < line_count(p.buf.text) ==> char_col_of(
            line_content(p.buf.text, target as nat),
            col as nat,
        ) <= line_content(p.buf.text, target as nat).len(),
    ensures
        ({
            let list = split_lines(p.buf.text);
            let shown = line_count(p.buf.text) as int;
            split_lines(with_row(p, target, col, row).buf.text) == if target < shown {
                list.update(target, row_put(list[target], col, row))
            } else {
                list.insert(shown, repeated(' ', col) + row)
            }
        }),
        !with_row(p, target, col, row).buf.read_only,
{
    let t = p.buf.text;
    let list = split_lines(t);
    let shown = line_count(t) as int;
    lines_are_split(t);
    feed_at_the_end(t);
    if target < shown {
        let n = target as nat;
        let x = line_content(t, n);
        let clusters = graphemes_of(x).len() as int;
        let y = row_put(x, col, row);
        line_start_is(t, n);
        assert(unbroken(x));
        unbroken_put(x, col, row);
        no_breaks_one_line(y);
        assert(line_replaced(list, target, seq![y]) =~= list.update(target, y));
        if col > clusters {
            let new = repeated(' ', col - clusters) + row;
            insertion_changes_one_line(t, n, x.len(), new);
            assert(x.take(x.len() as int) + new + x.skip(x.len() as int) =~= y);
        } else {
            insertion_changes_one_line(t, n, char_col_of(x, col as nat), row);
            if row.len() == 0 {
                assert(inserted(
                    t,
                    offset_of(t, n, char_col_of(x, col as nat)),
                    row,
                ) =~= t);
            }
        }
    } else {
        let n = (shown - 1) as nat;
        let x = line_content(t, n);
        let blanks = repeated(' ', col);
        let y = blanks + row;
        let new = seq!['\n'] + blanks + row;
        line_start_is(t, n);
        insertion_changes_one_line(t, n, x.len(), new);
        assert(x.take(x.len() as int) + new + x.skip(x.len() as int) =~= x + seq!['\n'] + y);
        assert(unbroken(x));
        behind_a_break(x, y);
        assert forall|i: int| 0 <= i < y.len() implies y[i] != '\n' by {
            if i < blanks.len() {
                assert(y[i] == blanks[i]);
            } else {
                assert(y[i] == row[i - blanks.len()]);
            }
        }
        no_breaks_one_line(y);
        assert(list[n as int] == x);
        assert(line_replaced(list, n as int, seq![x] + seq![y]) =~= list.insert(shown, y));
    }
}

/// The rows of a block go one by one into consecutive lines, the first into the
/// cursor's; all other lines stay.
pub proof fn blocks_are_pasted_row_by_row(
    b: Buf,
    line: int,
    col: int,
    rows: Seq<Seq<char>>,
    k: int,
)
    requires
        !b.read_only,
        0 <= line,
        0 <= col,
        0 <= k <= rows.len(),
        line + rows.len() <= line_count(b.text),
        forall|i: int| 0 <= i < rows.len() ==> unbroken(#[trigger] rows[i]),
        forall|n: nat|
            char_col_of(#[trigger] line_content(b.text, n), col as nat) <= line_content(
                b.text,
                n,
            ).len(),
    ensures
        ({
            let list = split_lines(b.text);
            let after = split_lines(with_rows(b, line, col, rows, k).buf.text);
            &&& after.len() == list.len()
            &&& forall|n: int|
                0 <= n < list.len() ==> #[trigger] after[n] == if line <= n < line + k {
                    row_put(list[n], col, rows[n - line])
                } else {
                    list[n]
                }
        }),
        !with_rows(b, line, col, rows, k).buf.read_only,
        line_count(with_rows(b, line, col, rows, k).buf.text) == line_count(b.text),
    decreases k,
{
    let t = b.text;
    let list = split_lines(t);
    lines_are_split(t);
    if k > 0 {
        blocks_are_pasted_row_by_row(b, line, col, rows, k - 1);
        let p = with_rows(b, line, col, rows, k - 1);
        let q = with_rows(b, line, col, rows, k);
        let target = line + k - 1;
        let u = p.buf.text;
        lines_are_split(u);
        assert(split_lines(u)[target] == list[target]);
        assert(line_content(u, target as nat) == line_content(t, target as nat));
        assert(unbroken(rows[k - 1]));
        rows_go_into_their_lines(p, target, col, rows[k - 1]);
        lines_are_split(q.buf.text);
        feed_at_the_end(u);
        feed_at_the_end(q.buf.text);
        let x = list[target];
        assert(row_put(x, col, rows[k - 1]).len() >= x.len());
    }
}

/// A text ends with a line feed where it has a further, empty line behind it.
proof fn feed_at_the_end(t: Seq<char>)
    ensures
        (t.len() > 0 && t.last() == '\n') == (split_lines(t).len() > 1 && split_lines(t).last().len()
            == 0),
        split_lines(t).len() > 0,
{
    lines_are_split(t);
    if t.len() > 0 && t.last() == '\n' {
        lines_are_split(t.drop_last());
    }
}

/// Each character of a text in the other case, one by one: an upper-case letter
/// in lower case, any other in upper case.
pub proof fn cases_are_toggled_one_by_one(t: Seq<char>, k: int)
    requires
        0 < k <= t.len(),
    ensures
        toggled(t, k) == toggled(t, k - 1) + if uppercase(t[k - 1]) {
            lowercase_of(seq![t[k - 1]])
        } else {
            uppercase_of(seq![t[k - 1]])
        },
        toggled(t, 0) == Seq::<char>::empty(),
{
}

/// Replacing writes the same character over every one but the line feeds.
pub proof fn replacing_keeps_the_shape(t: Seq<char>, c: char, i: int)
    requires
        0 <= i < t.len(),
    ensures
        Transform::Replace(c).of(t).len() == t.len(),
        Transform::Replace(c).of(t)[i] == if t[i] == '\n' {
            '\n'
        } else {
            c
        },
        Transform::Upper.of(t) == uppercase_of(t),
        Transform::Lower.of(t) == lowercase_of(t),
        Transform::Toggle.of(t) == toggled(t, t.len() as int),
{
}

/// Changing the characters of a selection from one place to another changes
/// what a deletion of the selection takes out, in its place, and nothing else.
pub proof fn selections_are_changed_in_place(
    b: Buf,
    tr: Transform,
    start: (usize, usize),
    end: (usize, usize),
)
    requires
        !b.read_only,
    ensures
        ({
            let (from, to) = range_offsets(b.text, char_range(b.text, start, end));
            let u = selection_transformed(b, tr, Mode::Visual, start, end).text;
            &&& 0 <= from < to <= b.text.len() ==> u == b.text.take(from) + tr.of(
                b.text.subrange(from, to),
            ) + b.text.skip(to)
            &&& from >= to ==> u == b.text
        }),
{
    let (from, to) = range_offsets(b.text, char_range(b.text, start, end));
    if 0 <= from < to <= b.text.len() {
        let new = tr.of(b.text.subrange(from, to));
        let u = removed(b.text, from, to);
        assert(u.take(from) =~= b.text.take(from));
        assert(u.skip(from) =~= b.text.skip(to));
        if new.len() == 0 {
            assert(u =~= b.text.take(from) + new + b.text.skip(to));
        }
    }
}

/// A change of letters that makes no lines.
pub open spec fn makes_no_lines(tr: Transform) -> bool {
    forall|x: Seq<char>| unbroken(x) ==> unbroken(#[trigger] tr.of(x))
}

/// Changing the characters of whole lines changes each of the selected lines,
/// and no other.
pub proof fn selected_lines_are_changed(b: Buf, tr: Transform, first: int, last: int, n: int)
    requires
        !b.read_only,
        makes_no_lines(tr),
        0 <= first,
        last < raw_line_count(b.text),
        0 <= n < raw_line_count(b.text),
        forall|k: nat| first <= k <= last ==> (#[trigger] line_content(b.text, k)).len() > 0,
    ensures
        ({
            let u = retexted(b, tr, false, first, last, 0, 0).text;
            &&& split_lines(u).len() == split_lines(b.text).len()
            &&& first <= n <= last && last < line_count(b.text) && (forall|x: Seq<char>|
                x.len() > 0 ==> (#[trigger] tr.of(x)).len() > 0) ==> split_lines(u)[n] == tr.of(
                split_lines(b.text)[n],
            )
            &&& !(first <= n <= last) ==> split_lines(u)[n] == split_lines(b.text)[n]
        }),
    decreases last - first + 1,
{
    let t = b.text;
    lines_are_split(t);
    if first <= last {
        let k = first as nat;
        let b1 = relined(b, tr, false, k, 0, 0);
        line_is_changed(b, tr, k);
        lines_are_split(b1.text);
        assert forall|j: nat| first + 1 <= j <= last implies (#[trigger] line_content(
            b1.text,
            j,
        )).len() > 0 by {
            assert(split_lines(b1.text)[j as int] == split_lines(t)[j as int]);
            assert(line_content(t, j).len() > 0);
        }
        selected_lines_are_changed(b1, tr, first + 1, last, n);
        let list = split_lines(t);
        let list1 = split_lines(b1.text);
        if n != first {
            assert(list1[n] == list[n]);
        }
        if last < line_count(t) {
            feed_at_the_end(t);
            feed_at_the_end(b1.text);
            if forall|x: Seq<char>| x.len() > 0 ==> (#[trigger] tr.of(x)).len() > 0 {
                assert(tr.of(line_content(t, k)).len() > 0);
                assert(last < line_count(b1.text));
            }
        }
    }
}

proof fn line_is_changed(b: Buf, tr: Transform, k: nat)
    requires
        !b.read_only,
        makes_no_lines(tr),
        k < raw_line_count(b.text),
        line_content(b.text, k).len() > 0,
    ensures
        ({
            let b1 = relined(b, tr, false, k, 0, 0);
            let list = split_lines(b.text);
            &&& !b1.read_only
            &&& split_lines(b1.text) == if k < line_count(b.text) {
                list.update(k as int, tr.of(line_content(b.text, k)))
            } else {
                list
            }
        }),
{
    let t = b.text;
    let x = line_content(t, k);
    let list = split_lines(t);
    line_start_is(t, k);
    lines_are_split(t);
    if k < line_count(t) {
        let from = offset_of(t, k, 0);
        let to = offset_of(t, k, x.len());
        let new = tr.of(x);
        assert(t.subrange(from, to) =~= x);
        assert(unbroken(x));
        no_breaks_one_line(new);
        let u = removed(t, from, to);
        let none = Seq::<char>::empty();
        removal_changes_one_line(t, k, 0, x.len());
        assert(x.take(0) + x.skip(x.len() as int) =~= none);
        assert(line_replaced(list, k as int, seq![none]) =~= list.update(k as int, none));
        lines_are_split(u);
        assert(split_lines(u)[k as int] == none);
        assert(line_content(u, k) == none);
        starts_stay(t, u, from, k);
        line_start_is(u, k);
        insertion_changes_one_line(u, k, 0, new);
        assert(offset_of(u, k, 0) == from);
        assert(none.take(0) + new + none.skip(0) =~= new);
        assert(line_replaced(split_lines(u), k as int, seq![new]) =~= list.update(k as int, new));
        if new.len() == 0 {
            assert(inserted(u, from, new) =~= u);
        }
    }
}

proof fn starts_stay(t: Seq<char>, u: Seq<char>, from: int, n: nat)
    requires
        n < raw_line_count(t),
        from == line_start(t, n),
        from <= u.len(),
        forall|i: int| 0 <= i < from ==> t[i] == #[trigger] u[i],
    ensures
        line_start(u, n) == from,
{
    line_start_is(t, n);
    if n > 0 {
        assert(crate::line_edits::alike_to(t, u, from));
        crate::line_edits::lines_are_alike(t, u, from, n, (n - 1) as nat);
    }
}

/// Both brackets of a pair name the stretch between them, and so does a letter
/// for the round and one for the curly ones; a quote names what stands between
/// two of it; the other letters name a word, a paragraph, a sentence, a tag, an
/// indented stretch or a function. No other key names anything.
pub proof fn keys_name_text_objects(c: char, inner: bool, tab_width: usize)
    ensures
        match object_of(KeyCode::Char(c), inner, tab_width) {
            Some(TextObjectType::Paired { open, close, inner: i }) => {
                &&& i == inner
                &&& (open == '(' && close == ')') || (open == '[' && close == ']') || (open == '{'
                    && close == '}') || (open == '<' && close == '>')
                &&& c == open || c == close || (c == 'b' && open == '(') || (c == 'B' && open
                    == '{')
            },
            Some(TextObjectType::Quote { char, inner: i }) => char == c && i == inner && (c == '"'
                || c == '\'' || c == '`'),
            Some(TextObjectType::Word { inner: i, big }) => i == inner && c == if big {
                'W'
            } else {
                'w'
            },
            Some(TextObjectType::Paragraph { inner: i }) => i == inner && c == 'p',
            Some(TextObjectType::Sentence { inner: i }) => i == inner && c == 's',
            Some(TextObjectType::Tag { inner: i }) => i == inner && c == 't',
            Some(TextObjectType::Indent { inner: i, tab_width: w }) => i == inner && c == 'i' && w
                == tab_width,
            Some(TextObjectType::Function { inner: i }) => i == inner && c == 'f',
            None => c != '(' && c != ')' && c != 'b' && c != '[' && c != ']' && c != '{' && c != '}'
                && c != 'B' && c != '<' && c != '>' && c != '"' && c != '\'' && c != '`' && c != 'w'
                && c != 'W' && c != 'p' && c != 's' && c != 't' && c != 'i' && c != 'f',
        },
{
}

} // verus!
