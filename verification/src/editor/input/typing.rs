//! What typing does to the lines of a text: the line at the cursor changes,
//! and the others stay.
use crate::auto_indent::{opener_before, profile_for};
use crate::buffer::{erased, inserted, typed, Buf};
use crate::editor::input::helpers::{
    backspaced, blanks_start, break_above, cursor_offset, floor_sub, inherited,
    line_break_of, line_broken, opened_below, run_start, shifted_lines, word_erased,
    word_start_before, yanked_lines,
};
use crate::indentation::{
    bounded, encoded_indent_has_its_width, indent_end, indent_end_is, leading_of, leading_width_of,
    IndentOptions,
};
use crate::line_edits::stretch_taken_out;
use crate::line_lists::{
    insertion_changes_one_line, line_replaced, lines_are_split, lines_joined, no_breaks_one_line,
    removal_changes_one_line, split_lines, split_of_joined,
};
use crate::lines::{
    content_end, line_break_is, line_content, line_count, line_of_position, line_start,
    line_start_is, line_starts_grow, offset_of, raw_line_count,
};
use crate::unicode::{alphanumeric, char_col_of, grapheme_col_of, whitespace};
use vstd::prelude::*;

verus! {

/// The cursor stands on a line of the text, at most behind its last character.
pub open spec fn cursor_in_text(b: Buf) -> bool {
    &&& 0 <= b.line() < line_count(b.text)
    &&& 0 <= b.char_col() <= b.here().len()
}

/// No line feed stands in a text.
pub open spec fn unbroken(t: Seq<char>) -> bool {
    forall|i: int| 0 <= i < t.len() ==> t[i] != '\n'
}

/// Typing a text into a line makes the line what it was with the text at the
/// cursor, and leaves every other line; the text keeps all its lines where
/// what is typed has no line feed.
pub proof fn typing_changes_the_cursor_line(b: Buf, after: Buf, new: Seq<char>)
    requires
        cursor_in_text(b),
        !b.read_only,
        typed(b, after, cursor_offset(b), new),
    ensures
        ({
            let x = b.here();
            let c = b.char_col();
            split_lines(after.text) == line_replaced(
                split_lines(b.text),
                b.line(),
                split_lines(x.take(c) + new + x.skip(c)),
            )
        }),
        unbroken(new) ==> split_lines(after.text) == split_lines(b.text).update(
            b.line(),
            b.here().take(b.char_col()) + new + b.here().skip(b.char_col()),
        ),
{
    let x = b.here();
    let c = b.char_col();
    let n = b.line() as nat;
    let y = x.take(c) + new + x.skip(c);
    line_start_is(b.text, n);
    insertion_changes_one_line(b.text, n, c as nat, new);
    lines_are_split(b.text);
    let list = split_lines(b.text);
    if new.len() == 0 {
        assert(inserted(b.text, cursor_offset(b), new) =~= b.text);
    }
    if unbroken(new) {
        assert(unbroken(y)) by {
            assert forall|i: int| 0 <= i < y.len() implies y[i] != '\n' by {
                if c <= i < c + new.len() {
                    assert(y[i] == new[i - c]);
                }
            }
        }
        no_breaks_one_line(y);
        assert(line_replaced(list, b.line(), seq![y]) =~= list.update(b.line(), y));
    }
}

/// The lines of a text with a line feed in it.
proof fn split_at_a_break(a: Seq<char>, z: Seq<char>)
    requires
        unbroken(a),
    ensures
        split_lines(a + seq!['\n'] + z) == seq![a] + split_lines(z),
{
    let end = seq!['\n'];
    no_breaks_one_line(a);
    split_of_joined(a, end);
    split_of_joined(a + end, z);
    reveal_with_fuel(split_lines, 2);
    assert(end.drop_last() =~= Seq::<char>::empty());
    let none = Seq::<char>::empty();
    assert(split_lines(end) =~= seq![none, none]);
    assert(a + none =~= a);
    assert(split_lines(a + end) =~= seq![a, none]);
    assert(none + split_lines(z)[0] =~= split_lines(z)[0]);
    assert(lines_joined(split_lines(a + end), split_lines(z)) =~= seq![a] + split_lines(z));
}

/// Breaking a line at the cursor. What stood before the cursor stays; what
/// stood behind it goes to a new line, behind the new line's indentation. A
/// closing bracket at the cursor whose partner opens just before goes to a
/// line of its own, with an empty line between. Every other line stays.
pub proof fn breaking_a_line(b: Buf, after: Buf, o: IndentOptions)
    requires
        cursor_in_text(b),
        !b.read_only,
        !line_break_of(b, o).doubled,
        unbroken(line_break_of(b, o).indent),
        line_break_of(b, o).closer matches Some(base) ==> unbroken(base),
        line_broken(b, after, line_break_of(b, o)),
    ensures
        ({
            let x = b.here();
            let c = b.char_col();
            let br = line_break_of(b, o);
            let head = x.take(c);
            let tail = x.skip(c);
            let opener = opener_before(b.text, profile_for(b.path), b.line() as nat, head);
            let partners = c < x.len() && ((opener == Some('{') && x[c] == '}') || (opener == Some(
                '(',
            ) && x[c] == ')') || (opener == Some('[') && x[c] == ']'));
            &&& split_lines(after.text) == line_replaced(
                split_lines(b.text),
                b.line(),
                if partners && indent_end(x, 0) <= c {
                    seq![head, br.indent, inherited(x, false, o) + tail]
                } else {
                    seq![head, br.indent + tail]
                },
            )
            &&& br.indent == if c < indent_end(x, 0) {
                head
            } else {
                inherited(x, opener is Some, o)
            }
        }),
{
    let x = b.here();
    let c = b.char_col();
    let n = b.line() as nat;
    let br = line_break_of(b, o);
    let head = x.take(c);
    let tail = x.skip(c);
    let new = br.text();
    line_start_is(b.text, n);
    insertion_changes_one_line(b.text, n, c as nat, new);
    assert(unbroken(head));
    assert(unbroken(tail));
    match br.closer {
        Some(base) => three_parts(head, br.indent, base, tail),
        None => two_parts(head, br.indent, tail),
    }
}

proof fn unbroken_joined(a: Seq<char>, b: Seq<char>)
    requires
        unbroken(a),
        unbroken(b),
    ensures
        unbroken(a + b),
{
    let all = a + b;
    assert forall|i: int| 0 <= i < all.len() implies all[i] != '\n' by {
        if i < a.len() {
            assert(all[i] == a[i]);
        } else {
            assert(all[i] == b[i - a.len()]);
        }
    }
}

proof fn two_parts(head: Seq<char>, mid: Seq<char>, tail: Seq<char>)
    requires
        unbroken(head),
        unbroken(mid),
        unbroken(tail),
    ensures
        split_lines(head + (seq!['\n'] + mid) + tail) == seq![head, mid + tail],
{
    unbroken_joined(mid, tail);
    no_breaks_one_line(mid + tail);
    split_at_a_break(head, mid + tail);
    assert(head + (seq!['\n'] + mid) + tail =~= head + seq!['\n'] + (mid + tail));
    assert(seq![head] + seq![mid + tail] =~= seq![head, mid + tail]);
}

proof fn three_parts(head: Seq<char>, mid: Seq<char>, base: Seq<char>, tail: Seq<char>)
    requires
        unbroken(head),
        unbroken(mid),
        unbroken(base),
        unbroken(tail),
    ensures
        split_lines(head + (seq!['\n'] + mid + seq!['\n'] + base) + tail) == seq![
            head,
            mid,
            base + tail,
        ],
{
    let end = seq!['\n'];
    let last = base + tail;
    let rest = mid + end + last;
    unbroken_joined(base, tail);
    no_breaks_one_line(last);
    split_at_a_break(mid, last);
    split_at_a_break(head, rest);
    assert(head + (end + mid + end + base) + tail =~= head + end + rest);
    assert(seq![head] + (seq![mid] + seq![last]) =~= seq![head, mid, last]);
}

/// A line opened below another: it holds its indentation alone, and the other
/// lines stay, in their order.
pub proof fn opening_a_line_below(b: Buf, o: IndentOptions)
    requires
        0 <= b.line() < line_count(b.text),
        content_end(b.text, b.line() as nat) < b.text.len(),
        unbroken(
            inherited(
                b.here(),
                opener_before(b.text, profile_for(b.path), b.line() as nat, b.here()) is Some,
                o,
            ),
        ),
    ensures
        ({
            let (at, text, col) = opened_below(b, o);
            let indent = inherited(
                b.here(),
                opener_before(b.text, profile_for(b.path), b.line() as nat, b.here()) is Some,
                o,
            );
            let list = split_lines(b.text);
            &&& split_lines(inserted(b.text, at, text)) == list.insert(b.line() + 1, indent)
            &&& col == indent.len()
        }),
{
    let n = b.line() as nat;
    let t = b.text;
    let (at, text, col) = opened_below(b, o);
    let indent = inherited(
        b.here(),
        opener_before(t, profile_for(b.path), n, b.here()) is Some,
        o,
    );
    line_start_is(t, n);
    line_break_is(t, line_start(t, n));
    line_start_is(t, n + 1);
    assert(n + 1 < raw_line_count(t)) by {
        if n + 1 >= raw_line_count(t) {
            assert(crate::lines::breaks_from(t, line_start(t, n)) == 0);
        }
    }
    lines_are_split(t);
    line_inserted_above(t, n + 1, indent);
    assert(text =~= indent + seq!['\n']);
}

/// A whole line put before another.
proof fn line_inserted_above(t: Seq<char>, n: nat, new: Seq<char>)
    requires
        n < raw_line_count(t),
        unbroken(new),
    ensures
        split_lines(inserted(t, offset_of(t, n, 0), new + seq!['\n'])) == split_lines(t).insert(
            n as int,
            new,
        ),
{
    let x = line_content(t, n);
    let list = split_lines(t);
    line_start_is(t, n);
    lines_are_split(t);
    insertion_changes_one_line(t, n, 0, new + seq!['\n']);
    assert(x.take(0) + (new + seq!['\n']) + x.skip(0) =~= new + seq!['\n'] + x);
    split_at_a_break(new, x);
    no_breaks_one_line(x);
    assert(list[n as int] == x);
    assert(line_replaced(list, n as int, seq![new] + seq![x]) =~= list.insert(n as int, new));
}

/// A line opened above another holds its indentation alone, and the other
/// lines stay, in their order.
pub proof fn opening_a_line_above(b: Buf, indent: Seq<char>)
    requires
        0 <= b.line() < line_count(b.text),
        unbroken(indent),
    ensures
        split_lines(
            inserted(b.text, offset_of(b.text, b.line() as nat, 0), indent + seq!['\n']),
        ) == split_lines(b.text).insert(b.line(), indent),
{
    line_inserted_above(b.text, b.line() as nat, indent);
}

/// At the start of a line, a backspace joins the line to the one above: the
/// two become one, and the other lines stay.
pub proof fn backspace_joins_lines(b: Buf, after: Buf, o: IndentOptions)
    requires
        !b.read_only,
        0 < b.line() < line_count(b.text),
        b.col() == 0,
        backspaced(b, after, o) || word_erased(b, after),
    ensures
        ({
            let above = (b.line() - 1) as nat;
            &&& line_content(after.text, above) == line_content(b.text, above) + b.here()
            &&& raw_line_count(after.text) + 1 == raw_line_count(b.text)
            &&& forall|n: nat|
                n < above ==> #[trigger] line_content(after.text, n) == line_content(b.text, n)
            &&& forall|n: nat|
                n > b.line() ==> #[trigger] line_content(b.text, n) == line_content(
                    after.text,
                    (n - 1) as nat,
                )
        }),
{
    let t = b.text;
    let n = b.line() as nat;
    let above = (n - 1) as nat;
    line_start_is(t, n);
    line_start_is(t, above);
    line_break_is(t, line_start(t, above));
    line_starts_grow(t, above, n);
    let (from, to) = break_above(b);
    assert(from == content_end(t, above));
    assert(to == line_start(t, n));
    assert(from < to);
    stretch_taken_out(t, above, from, n, to);
    assert(t.subrange(line_start(t, above), from) =~= line_content(t, above));
    assert(t.subrange(to, content_end(t, n)) =~= line_content(t, n));
}

/// Away from an indentation a backspace takes out the cluster before the
/// cursor, whole, and nothing else.
pub proof fn backspace_takes_one_cluster(b: Buf, after: Buf, o: IndentOptions)
    requires
        cursor_in_text(b),
        !b.read_only,
        0 < b.col(),
        char_col_of(b.here(), (b.col() - 1) as nat) < b.char_col(),
        o.soft_tab_stop == 0 || indent_end(b.here().take(b.char_col()), 0) != b.char_col(),
        backspaced(b, after, o),
    ensures
        ({
            let x = b.here();
            let from = char_col_of(x, (b.col() - 1) as nat) as int;
            split_lines(after.text) == split_lines(b.text).update(
                b.line(),
                x.take(from) + x.skip(b.char_col()),
            )
        }),
{
    let x = b.here();
    let n = b.line() as nat;
    let from = char_col_of(x, (b.col() - 1) as nat);
    line_start_is(b.text, n);
    lines_are_split(b.text);
    removal_changes_one_line(b.text, n, from, b.char_col() as nat);
    let list = split_lines(b.text);
    let y = x.take(from as int) + x.skip(b.char_col());
    assert(line_replaced(list, b.line(), seq![y]) =~= list.update(b.line(), y));
}

proof fn blanks_start_is(t: Seq<char>, i: int)
    requires
        0 <= i <= t.len(),
    ensures
        0 <= blanks_start(t, i) <= i,
        forall|j: int| blanks_start(t, i) <= j < i ==> whitespace(t[j]),
        blanks_start(t, i) > 0 ==> !whitespace(t[blanks_start(t, i) - 1]),
    decreases i,
{
    if i > 0 && whitespace(t[i - 1]) {
        blanks_start_is(t, i - 1);
    }
}

/// A letter, a digit or an underscore.
pub open spec fn in_words(c: char) -> bool {
    alphanumeric(c) || c == '_'
}

/// A character of the same sort as another: both in words, or both neither in
/// words nor white space.
pub open spec fn goes_with(c: char, word: bool) -> bool {
    if word {
        in_words(c)
    } else {
        !in_words(c) && !whitespace(c)
    }
}

proof fn run_start_is(t: Seq<char>, i: int, word: bool)
    requires
        0 <= i <= t.len(),
    ensures
        0 <= run_start(t, i, word) <= i,
        forall|j: int| run_start(t, i, word) <= j < i ==> goes_with(t[j], word),
        run_start(t, i, word) > 0 ==> !goes_with(t[run_start(t, i, word) - 1], word),
    decreases i,
{
    if i > 0 && goes_with(t[i - 1], word) {
        run_start_is(t, i - 1, word);
    }
}

/// Deleting the word before the cursor takes the white space before the cursor
/// and the whole word before that: a stretch of letters, digits and
/// underscores, or one of other characters.
pub proof fn the_word_before_is_whole(t: Seq<char>, c: int, s: int)
    requires
        0 < s <= c <= t.len(),
        forall|j: int| s <= j < c ==> whitespace(#[trigger] t[j]),
        !whitespace(t[s - 1]),
    ensures
        ({
            let from = word_start_before(t, c);
            let word = in_words(t[s - 1]);
            &&& 0 <= from < s
            &&& forall|j: int| from <= j < s ==> goes_with(#[trigger] t[j], word)
            &&& from > 0 ==> !goes_with(t[from - 1], word)
        }),
{
    blanks_start_is(t, c);
    let b = blanks_start(t, c);
    assert(b == s) by {
        if b < s {
            assert(whitespace(t[s - 1]));
        } else if b > s {
            assert(whitespace(t[b - 1]));
        }
    }
    run_start_is(t, s - 1, in_words(t[s - 1]));
}

/// Where only white space stands before the cursor, all of it goes.
pub proof fn blanks_before_go(t: Seq<char>, c: int)
    requires
        0 <= c <= t.len(),
        forall|j: int| 0 <= j < c ==> whitespace(#[trigger] t[j]),
    ensures
        word_start_before(t, c) == 0,
{
    blanks_start_is(t, c);
    let b = blanks_start(t, c);
    if b > 0 {
        assert(whitespace(t[b - 1]));
    }
}

/// A stretch taken out of the cursor's line: the line loses it, and the others
/// stay.
pub proof fn word_erasure_changes_the_cursor_line(b: Buf, after: Buf)
    requires
        cursor_in_text(b),
        !b.read_only,
        0 < b.col(),
        0 < b.char_col(),
        0 <= word_start_before(b.here(), b.char_col()) < b.char_col(),
        word_erased(b, after),
    ensures
        ({
            let x = b.here();
            split_lines(after.text) == split_lines(b.text).update(
                b.line(),
                x.take(word_start_before(x, b.char_col())) + x.skip(b.char_col()),
            )
        }),
{
    let x = b.here();
    let n = b.line() as nat;
    let from = word_start_before(x, b.char_col()) as nat;
    line_start_is(b.text, n);
    lines_are_split(b.text);
    removal_changes_one_line(b.text, n, from, b.char_col() as nat);
    let list = split_lines(b.text);
    let y = x.take(from as int) + x.skip(b.char_col());
    assert(line_replaced(list, b.line(), seq![y]) =~= list.update(b.line(), y));
}

/// The lines that an operation on whole lines takes, each with its line feed.
pub open spec fn each_ended(list: Seq<Seq<char>>, from: int, to: int) -> Seq<char>
    decreases to - from,
{
    if from >= to {
        Seq::empty()
    } else {
        each_ended(list, from, to - 1) + list[to - 1].push('\n')
    }
}

proof fn lines_then_start(t: Seq<char>, from: nat, to: nat)
    requires
        from <= to < raw_line_count(t),
    ensures
        t.subrange(line_start(t, from), line_start(t, to)) == each_ended(
            split_lines(t),
            from as int,
            to as int,
        ),
    decreases to - from,
{
    line_start_is(t, from);
    line_start_is(t, to);
    lines_are_split(t);
    line_starts_grow(t, from, to);
    if from < to {
        let k = (to - 1) as nat;
        lines_then_start(t, from, k);
        line_start_is(t, k);
        line_starts_grow(t, from, k);
        line_break_is(t, line_start(t, k));
        assert(line_start(t, to) == content_end(t, k) + 1) by {
            if content_end(t, k) >= t.len() {
                assert(crate::lines::breaks_from(t, line_start(t, k)) == 0);
            }
        }
        assert(t.subrange(line_start(t, from), line_start(t, to)) =~= t.subrange(
            line_start(t, from),
            line_start(t, k),
        ) + line_content(t, k).push('\n'));
    } else {
        assert(t.subrange(line_start(t, from), line_start(t, to)) =~= Seq::<char>::empty());
    }
}

/// Copying lines takes as many as are asked for, from the cursor's on, or as
/// many as there are; each ends with a line feed, the last one too where the
/// text has none there.
pub proof fn copied_lines_are_whole(b: Buf, count: int)
    requires
        0 <= b.line() < line_count(b.text),
        0 < count,
        b.line() + count <= usize::MAX,
        b.text.len() > 0,
    ensures
        yanked_lines(b, count) == each_ended(
            split_lines(b.text),
            b.line(),
            if b.line() + count < line_count(b.text) {
                b.line() + count
            } else {
                line_count(b.text) as int
            },
        ),
{
    let t = b.text;
    let n = line_count(t) as int;
    let first = b.line() as nat;
    let end = if b.line() + count < n {
        b.line() + count
    } else {
        n
    };
    lines_are_split(t);
    line_start_is(t, first);
    if end < n {
        lines_then_start(t, first, end as nat);
        let s = t.subrange(line_start(t, first), line_start(t, end as nat));
        line_start_is(t, end as nat);
        line_starts_grow(t, first, end as nat);
        assert(s.last() == '\n') by {
            line_starts_grow(t, (end - 1) as nat, end as nat);
            assert(t[line_start(t, end as nat) - 1] == '\n');
            assert(s.len() > 0) by {
                line_starts_grow(t, first, (end - 1) as nat);
                line_start_is(t, (end - 1) as nat);
                line_break_is(t, line_start(t, (end - 1) as nat));
            }
        }
    } else if t.last() == '\n' {
        let k = n as nat;
        line_start_is(t, k);
        assert(line_start(t, k) == t.len()) by {
            if line_start(t, k) < t.len() {
                line_break_is(t, line_start(t, k));
                assert(crate::lines::breaks_from(t, line_start(t, k)) == 0);
                assert(t[t.len() - 1] != '\n');
            }
        }
        lines_then_start(t, first, k);
        line_starts_grow(t, first, (k - 1) as nat);
        line_start_is(t, (k - 1) as nat);
        line_break_is(t, line_start(t, (k - 1) as nat));
        line_starts_grow(t, (k - 1) as nat, k);
    } else {
        let k = (n - 1) as nat;
        lines_then_start(t, first, k);
        line_start_is(t, k);
        line_starts_grow(t, first, k);
        line_break_is(t, line_start(t, k));
        assert(content_end(t, k) == t.len()) by {
            assert(crate::lines::breaks_from(t, line_start(t, k)) == 0);
        }
        let s = t.subrange(line_start(t, first), t.len() as int);
        assert(s =~= t.subrange(line_start(t, first), line_start(t, k)) + line_content(t, k));
        assert(s.push('\n') =~= t.subrange(line_start(t, first), line_start(t, k)) + line_content(
            t,
            k,
        ).push('\n'));
        if s.len() > 0 {
            assert(s.last() == t.last());
        }
    }
}

/// What stands behind the blanks that lead a line.
pub open spec fn behind_blanks(x: Seq<char>) -> Seq<char> {
    x.skip(indent_end(x, 0))
}

#[verifier::rlimit(40)]
proof fn reindent_changes_one_line(b: Buf, n: nat, new: Seq<char>)
    requires
        !b.read_only,
        n < raw_line_count(b.text),
        unbroken(new),
    ensures
        ({
            let x = line_content(b.text, n);
            &&& split_lines(b.reindented(n, new).text) == split_lines(b.text).update(
                n as int,
                new + behind_blanks(x),
            )
            &&& !b.reindented(n, new).read_only
        }),
{
    let t = b.text;
    let x = line_content(t, n);
    let k = indent_end(x, 0) as nat;
    let list = split_lines(t);
    lines_are_split(t);
    line_start_is(t, n);
    indent_end_is(x, 0);
    let rest = behind_blanks(x);
    assert(leading_of(x).len() == k);
    assert(leading_of(x) + rest =~= x);
    if leading_of(x) == new {
        assert(list.update(n as int, new + rest) =~= list);
    } else {
        let from = offset_of(t, n, 0);
        let to = offset_of(t, n, k);
        let b1 = b.without(from, to);
        removal_changes_one_line(t, n, 0, k);
        assert(x.take(0) + x.skip(k as int) =~= rest);
        assert(line_replaced(list, n as int, seq![rest]) =~= list.update(n as int, rest));
        if k == 0 {
            assert(x =~= rest);
            assert(list.update(n as int, rest) =~= list);
        }
        assert(split_lines(b1.text) == list.update(n as int, rest));
        lines_are_split(b1.text);
        assert(line_content(b1.text, n) == rest);
        line_start_is(b1.text, n);
        assert(line_start(b1.text, n) == from) by {
            starts_agree(t, b1.text, from, n);
        }
        insertion_changes_one_line(b1.text, n, 0, new);
        assert(offset_of(b1.text, n, 0) == from);
        let y = new + rest;
        assert(rest.take(0) + new + rest.skip(0) =~= y);
        assert(unbroken(rest)) by {
            assert forall|i: int| 0 <= i < rest.len() implies rest[i] != '\n' by {
                assert(rest[i] == x[i + k]);
            }
        }
        unbroken_joined(new, rest);
        no_breaks_one_line(y);
        let list1 = split_lines(b1.text);
        assert(line_replaced(list1, n as int, seq![y]) =~= list.update(n as int, y));
        if new.len() == 0 {
            assert(inserted(b1.text, from, new) =~= b1.text);
        }
    }
}

/// A line starts where it did, in texts that are alike up to there.
proof fn starts_agree(t: Seq<char>, u: Seq<char>, from: int, n: nat)
    requires
        n < raw_line_count(t),
        from == line_start(t, n),
        from <= u.len(),
        forall|i: int| 0 <= i < from ==> t[i] == #[trigger] u[i],
    ensures
        line_start(u, n) == from,
{
    line_start_is(t, n);
    if n > 0 {
        assert(crate::line_edits::alike_to(t, u, from));
        crate::line_edits::lines_are_alike(t, u, from, n, (n - 1) as nat);
    }
}

/// Shifting lines. Each line of the range that is not empty is indented one
/// level wider, or one level less wide, and as wide as the first column at
/// least; behind its indentation it stays as it was. Empty lines, and the lines
/// outside the range, stay.
pub proof fn shifting_changes_indentation_alone(
    b: Buf,
    start: int,
    end: int,
    o: IndentOptions,
    more: bool,
    n: int,
)
    requires
        !b.read_only,
        o.wf(),
        0 <= start,
        end <= raw_line_count(b.text),
        0 <= n < raw_line_count(b.text),
        leading_width_of(line_content(b.text, n as nat), o.tab_width as int) + o.shift_width
            <= usize::MAX,
    ensures
        ({
            let u = shifted_lines(b, start, end, o, more).text;
            let x = split_lines(b.text)[n];
            let y = split_lines(u)[n];
            let tab = o.tab_width as int;
            &&& split_lines(u).len() == split_lines(b.text).len()
            &&& if start <= n < end && x.len() > 0 {
                exists|lead: Seq<char>| lead + behind_blanks(x) == y && #[trigger] leading_of(
                    lead,
                ) == lead && leading_width_of(lead, tab) == if more {
                    leading_width_of(x, tab) + o.shift_width
                } else if leading_width_of(x, tab) > o.shift_width {
                    leading_width_of(x, tab) - o.shift_width
                } else {
                    0
                }
            } else {
                y == x
            }
        }),
    decreases end - start,
{
    let t = b.text;
    let tab = o.tab_width as int;
    lines_are_split(t);
    let x = split_lines(t)[n];
    if start < end {
        let content = line_content(t, start as nat);
        let width = leading_width_of(content, tab);
        let target = if more {
            bounded(width + o.shift_width)
        } else {
            floor_sub(width, o.shift_width as int)
        };
        width_is_positive(content, indent_end(content, 0), tab);
        encoded_indent_has_its_width(o, target);
        let lead = o.encoded(target);
        assert(unbroken(lead)) by {
            indent_end_is(lead, 0);
            assert(lead == leading_of(lead));
            assert forall|i: int| 0 <= i < lead.len() implies lead[i] != '\n' by {
                assert(crate::indentation::is_indent(lead[i]));
            }
        }
        let b1 = if content.len() == 0 {
            b
        } else {
            b.reindented(start as nat, lead)
        };
        reindent_changes_one_line(b, start as nat, lead);
        lines_are_split(b1.text);
        let x1 = split_lines(b1.text)[n];
        if n != start || content.len() == 0 {
            assert(x1 == x);
            assert(line_content(b1.text, n as nat) == x);
            shifting_changes_indentation_alone(b1, start + 1, end, o, more, n);
        } else {
            assert(x1 == lead + behind_blanks(x));
            stays_behind(b1, start + 1, end, o, more, n);
            assert(lead + behind_blanks(x) == split_lines(
                shifted_lines(b, start, end, o, more).text,
            )[n]);
        }
    }
}

proof fn width_is_positive(t: Seq<char>, k: int, tab: int)
    requires
        0 < tab,
    ensures
        0 <= crate::indentation::width_of(t, k, tab) <= usize::MAX,
    decreases k,
{
    if 0 < k <= t.len() {
        width_is_positive(t, k - 1, tab);
        let w = crate::indentation::width_of(t, k - 1, tab);
        assert(0 <= w % tab < tab) by (nonlinear_arith)
            requires
                tab > 0,
        ;
    }
}

/// Lines before the range of a shift stay.
proof fn stays_behind(b: Buf, start: int, end: int, o: IndentOptions, more: bool, n: int)
    requires
        !b.read_only,
        o.wf(),
        0 <= n < start,
        end <= raw_line_count(b.text),
        n < raw_line_count(b.text),
    ensures
        split_lines(shifted_lines(b, start, end, o, more).text)[n] == split_lines(b.text)[n],
        split_lines(shifted_lines(b, start, end, o, more).text).len() == split_lines(b.text).len(),
    decreases end - start,
{
    let t = b.text;
    let tab = o.tab_width as int;
    lines_are_split(t);
    if start < end {
        let content = line_content(t, start as nat);
        let width = leading_width_of(content, tab);
        let target = if more {
            bounded(width + o.shift_width)
        } else {
            floor_sub(width, o.shift_width as int)
        };
        width_is_positive(content, indent_end(content, 0), tab);
        encoded_indent_has_its_width(o, target);
        let lead = o.encoded(target);
        assert(unbroken(lead)) by {
            indent_end_is(lead, 0);
            assert(lead == leading_of(lead));
            assert forall|i: int| 0 <= i < lead.len() implies lead[i] != '\n' by {
                assert(crate::indentation::is_indent(lead[i]));
            }
        }
        let b1 = if content.len() == 0 {
            b
        } else {
            b.reindented(start as nat, lead)
        };
        reindent_changes_one_line(b, start as nat, lead);
        lines_are_split(b1.text);
        stays_behind(b1, start + 1, end, o, more, n);
    }
}

/// Typing a text without line feeds leaves the cursor on its line, behind what
/// was typed.
pub proof fn typing_moves_the_cursor_behind(b: Buf, after: Buf, new: Seq<char>)
    requires
        cursor_in_text(b),
        !b.read_only,
        new.len() > 0,
        unbroken(new),
        typed(b, after, cursor_offset(b), new),
    ensures
        after.line() == b.line(),
        after.col() == grapheme_col_of(after.here(), (b.char_col() + new.len()) as nat),
{
    let t = b.text;
    let u = after.text;
    let n = b.line() as nat;
    let c = b.char_col();
    let x = b.here();
    let y = x.take(c) + new + x.skip(c);
    line_start_is(t, n);
    let at = cursor_offset(b);
    assert(at == line_start(t, n) + c);
    typing_changes_the_cursor_line(b, after, new);
    lines_are_split(t);
    lines_are_split(u);
    assert(line_content(u, n) == y);
    starts_agree(t, u, line_start(t, n), n);
    line_start_is(u, n);
    assert(content_end(u, n) - line_start(u, n) == y.len());
    line_of_position(u, n, at + new.len());
}

/// Taking out the word before the cursor, or what stands before it, leaves the
/// cursor on its line, where the text was taken out.
pub proof fn erasing_leaves_the_cursor_there(b: Buf, after: Buf, from: nat)
    requires
        cursor_in_text(b),
        !b.read_only,
        from < b.char_col(),
        erased(
            b,
            after,
            offset_of(b.text, b.line() as nat, from),
            offset_of(b.text, b.line() as nat, b.char_col() as nat),
        ),
    ensures
        after.line() == b.line(),
        after.col() == grapheme_col_of(after.here(), from),
        split_lines(after.text) == split_lines(b.text).update(
            b.line(),
            b.here().take(from as int) + b.here().skip(b.char_col()),
        ),
{
    let t = b.text;
    let u = after.text;
    let n = b.line() as nat;
    let x = b.here();
    let c = b.char_col();
    let y = x.take(from as int) + x.skip(c);
    line_start_is(t, n);
    lines_are_split(t);
    removal_changes_one_line(t, n, from, c as nat);
    let list = split_lines(t);
    assert(line_replaced(list, b.line(), seq![y]) =~= list.update(b.line(), y));
    lines_are_split(u);
    assert(line_content(u, n) == y);
    starts_agree(t, u, line_start(t, n), n);
    line_start_is(u, n);
    assert(content_end(u, n) - line_start(u, n) == y.len());
    line_of_position(u, n, line_start(t, n) + from);
}

} // verus!
