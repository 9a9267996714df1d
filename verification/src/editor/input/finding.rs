//! What a search finds: the nearest match in its direction, going round the
//! text, with none passed over.
use crate::buffer::Buf;
use crate::editor::input::search::{
    chars_to_byte, find_from, first_from, ignores_case, last_before, line_after, lines_text,
    literal_pattern, match_cols, pattern_matches, search_subject, searched, selected_text,
    word_cluster, word_from, word_here, word_to,
};
use crate::editor::input::visual::uppercase;
use crate::editor::{selection_of, Ed, Mode};
use crate::fmt::joined;
use crate::lines::{line_content, line_count};
use crate::text_index::{bytes_before, bytes_grow, slice_of};
use crate::unicode::{alphanumeric, char_col_of, grapheme_col_of, graphemes_of};
use vstd::prelude::*;

verus! {

/// A pattern, and whether case counts.
pub ghost struct Sought {
    pub pattern: Seq<char>,
    pub ignore_case: bool,
}

/// The columns of line `n` at which a pattern matches, in the order in which
/// the matches are found.
pub open spec fn hits(t: Seq<char>, s: Sought, n: int) -> Seq<int> {
    match_cols(line_content(t, n as nat), s.pattern, s.ignore_case)
}

/// No match of line `n` starts at or behind a column.
pub open spec fn none_from(t: Seq<char>, s: Sought, n: int, col: int) -> bool {
    forall|i: int| 0 <= i < hits(t, s, n).len() ==> (#[trigger] hits(t, s, n)[i]) < col
}

/// No match of line `n` starts before a column.
pub open spec fn none_before(t: Seq<char>, s: Sought, n: int, col: int) -> bool {
    forall|i: int| 0 <= i < hits(t, s, n).len() ==> (#[trigger] hits(t, s, n)[i]) >= col
}

/// The match of line `n` at a column is the first that starts at or behind
/// another column.
pub open spec fn is_first(t: Seq<char>, s: Sought, n: int, from: int, col: int) -> bool {
    exists|i: int|
        {
            &&& 0 <= i < hits(t, s, n).len()
            &&& #[trigger] hits(t, s, n)[i] == col
            &&& from <= col
            &&& forall|j: int| 0 <= j < i ==> (#[trigger] hits(t, s, n)[j]) < from
        }
}

/// The match of line `n` at a column is the last that starts before another
/// column.
pub open spec fn is_last(t: Seq<char>, s: Sought, n: int, to: int, col: int) -> bool {
    exists|i: int|
        {
            &&& 0 <= i < hits(t, s, n).len()
            &&& #[trigger] hits(t, s, n)[i] == col
            &&& col < to
            &&& forall|j: int| i < j < hits(t, s, n).len() ==> (#[trigger] hits(t, s, n)[j]) >= to
        }
}

/// The nearest match at or behind a place, going round the text.
pub open spec fn nearest_behind(
    t: Seq<char>,
    s: Sought,
    line: int,
    col: int,
    found: Option<(int, int)>,
) -> bool {
    let count = line_count(t) as int;
    match found {
        Some((l, c)) => {
            &&& 0 <= l < count
            &&& if l == line && c >= col {
                is_first(t, s, line, col, c)
            } else {
                &&& none_from(t, s, line, col)
                &&& is_first(t, s, l, 0, c)
                &&& l > line ==> forall|n: int| line < n < l ==> #[trigger] none_from(t, s, n, 0)
                &&& l <= line ==> forall|n: int|
                    line < n < count || 0 <= n < l ==> #[trigger] none_from(t, s, n, 0)
            }
        },
        None => forall|n: int| 0 <= n < count ==> #[trigger] none_from(t, s, n, 0),
    }
}

/// The nearest match before a place, going round the text backward.
pub open spec fn nearest_ahead(
    t: Seq<char>,
    s: Sought,
    line: int,
    col: int,
    found: Option<(int, int)>,
) -> bool {
    let count = line_count(t) as int;
    let far = usize::MAX as int;
    match found {
        Some((l, c)) => {
            &&& 0 <= l < count
            &&& if l == line && c < col {
                is_last(t, s, line, col, c)
            } else {
                &&& none_before(t, s, line, col)
                &&& is_last(t, s, l, far, c)
                &&& l < line ==> forall|n: int| l < n < line ==> #[trigger] none_before(t, s, n, far)
                &&& l >= line ==> forall|n: int|
                    0 <= n < line || l < n < count ==> #[trigger] none_before(t, s, n, far)
            }
        },
        None => forall|n: int| 0 <= n < count ==> #[trigger] none_before(t, s, n, far),
    }
}

proof fn first_from_is(cols: Seq<int>, k: int, col: int)
    requires
        0 <= k <= cols.len(),
    ensures
        match first_from(cols, k, col) {
            Some(c) => exists|i: int|
                k <= i < cols.len() && #[trigger] cols[i] == c && c >= col && forall|j: int|
                    k <= j < i ==> (#[trigger] cols[j]) < col,
            None => forall|j: int| k <= j < cols.len() ==> (#[trigger] cols[j]) < col,
        },
    decreases cols.len() - k,
{
    if k < cols.len() {
        if cols[k] >= col {
            assert(cols[k] == first_from(cols, k, col)->0);
        } else {
            first_from_is(cols, k + 1, col);
            if let Some(c) = first_from(cols, k + 1, col) {
                let i = choose|i: int|
                    k + 1 <= i < cols.len() && #[trigger] cols[i] == c && c >= col && forall|j: int|
                        k + 1 <= j < i ==> (#[trigger] cols[j]) < col;
                assert(cols[i] == c);
            }
        }
    }
}

proof fn last_before_is(cols: Seq<int>, k: int, col: int)
    requires
        0 <= k <= cols.len(),
    ensures
        match last_before(cols, k, col) {
            Some(c) => exists|i: int|
                0 <= i < k && #[trigger] cols[i] == c && c < col && forall|j: int|
                    i < j < k ==> (#[trigger] cols[j]) >= col,
            None => forall|j: int| 0 <= j < k ==> (#[trigger] cols[j]) >= col,
        },
    decreases k,
{
    if k > 0 {
        if cols[k - 1] < col {
            assert(cols[k - 1] == last_before(cols, k, col)->0);
        } else {
            last_before_is(cols, k - 1, col);
            if let Some(c) = last_before(cols, k - 1, col) {
                let i = choose|i: int|
                    0 <= i < k - 1 && #[trigger] cols[i] == c && c < col && forall|j: int|
                        i < j < k - 1 ==> (#[trigger] cols[j]) >= col;
                assert(cols[i] == c);
            }
        }
    }
}

/// The line that is `j` lines behind another, going round.
spec fn down(line: int, j: int, count: int) -> int {
    if line + j < count {
        line + j
    } else {
        line + j - count
    }
}

/// The line that is `j` lines before another, going round.
spec fn up(line: int, j: int, count: int) -> int {
    if line - j >= 0 {
        line - j
    } else {
        line - j + count
    }
}

spec fn start(j: int, col: int, other: int) -> int {
    if j == 0 {
        col
    } else {
        other
    }
}

proof fn walk_down(t: Seq<char>, s: Sought, line: int, col: int, j: int)
    requires
        0 <= line < line_count(t),
        0 <= j <= line_count(t),
    ensures
        ({
            let count = line_count(t) as int;
            let found = find_from(
                t,
                s.pattern,
                s.ignore_case,
                down(line, j, count),
                start(j, col, 0),
                true,
                (count + 1 - j) as nat,
            );
            match found {
                Some((l, c)) => exists|k: int|
                    {
                        &&& j <= k <= count
                        &&& #[trigger] down(line, k, count) == l
                        &&& is_first(t, s, l, start(k, col, 0), c)
                        &&& forall|i: int|
                            j <= i < k ==> none_from(
                                t,
                                s,
                                #[trigger] down(line, i, count),
                                start(i, col, 0),
                            )
                    },
                None => forall|i: int|
                    j <= i <= count ==> none_from(
                        t,
                        s,
                        #[trigger] down(line, i, count),
                        start(i, col, 0),
                    ),
            }
        }),
    decreases line_count(t) - j,
{
    let count = line_count(t) as int;
    let here = down(line, j, count);
    let from = start(j, col, 0);
    let cols = hits(t, s, here);
    let steps = (count + 1 - j) as nat;
    first_from_is(cols, 0, from);
    if let Some(c) = first_from(cols, 0, from) {
        assert(is_first(t, s, here, from, c));
        assert(down(line, j, count) == here);
    } else {
        assert(none_from(t, s, here, from));
        if j < count {
            walk_down(t, s, line, col, j + 1);
            assert(line_after(here, count, true) == down(line, j + 1, count));
        } else {
            assert(find_from(
                t,
                s.pattern,
                s.ignore_case,
                line_after(here, count, true),
                0,
                true,
                0,
            ) is None);
        }
    }
}

proof fn walk_up(t: Seq<char>, s: Sought, line: int, col: int, j: int)
    requires
        0 <= line < line_count(t),
        0 <= j <= line_count(t),
    ensures
        ({
            let count = line_count(t) as int;
            let far = usize::MAX as int;
            let found = find_from(
                t,
                s.pattern,
                s.ignore_case,
                up(line, j, count),
                start(j, col, far),
                false,
                (count + 1 - j) as nat,
            );
            match found {
                Some((l, c)) => exists|k: int|
                    {
                        &&& j <= k <= count
                        &&& #[trigger] up(line, k, count) == l
                        &&& is_last(t, s, l, start(k, col, far), c)
                        &&& forall|i: int|
                            j <= i < k ==> none_before(
                                t,
                                s,
                                #[trigger] up(line, i, count),
                                start(i, col, far),
                            )
                    },
                None => forall|i: int|
                    j <= i <= count ==> none_before(
                        t,
                        s,
                        #[trigger] up(line, i, count),
                        start(i, col, far),
                    ),
            }
        }),
    decreases line_count(t) - j,
{
    let count = line_count(t) as int;
    let far = usize::MAX as int;
    let here = up(line, j, count);
    let to = start(j, col, far);
    let cols = hits(t, s, here);
    last_before_is(cols, cols.len() as int, to);
    if let Some(c) = last_before(cols, cols.len() as int, to) {
        assert(is_last(t, s, here, to, c));
        assert(up(line, j, count) == here);
    } else {
        assert(none_before(t, s, here, to));
        if j < count {
            walk_up(t, s, line, col, j + 1);
            assert(line_after(here, count, false) == up(line, j + 1, count));
        } else {
            assert(find_from(
                t,
                s.pattern,
                s.ignore_case,
                line_after(here, count, false),
                far,
                false,
                0,
            ) is None);
        }
    }
}

/// A search forward finds the nearest match behind its start. A match on a
/// later line is the first there, and no match was passed: none on the start
/// line from the start on, and none on the lines between. It goes on from the
/// top only where no line behind the start matches, and finds nothing only
/// where no line does.
pub proof fn forward_finds_the_nearest(t: Seq<char>, s: Sought, line: int, col: int)
    requires
        0 <= line < line_count(t),
        0 <= col,
    ensures
        nearest_behind(
            t,
            s,
            line,
            col,
            find_from(t, s.pattern, s.ignore_case, line, col, true, line_count(t) + 1),
        ),
{
    let count = line_count(t) as int;
    walk_down(t, s, line, col, 0);
    let found = find_from(t, s.pattern, s.ignore_case, line, col, true, line_count(t) + 1);
    match found {
        Some((l, c)) => {
            let k = choose|k: int|
                {
                    &&& 0 <= k <= count
                    &&& #[trigger] down(line, k, count) == l
                    &&& is_first(t, s, l, start(k, col, 0), c)
                    &&& forall|i: int|
                        0 <= i < k ==> none_from(
                            t,
                            s,
                            #[trigger] down(line, i, count),
                            start(i, col, 0),
                        )
                };
            if k > 0 {
                assert(none_from(t, s, down(line, 0, count), start(0, col, 0)));
                assert forall|n: int| line < n < l implies #[trigger] none_from(t, s, n, 0) by {
                    assert(down(line, n - line, count) == n);
                }
                assert forall|n: int|
                    l <= line && (line < n < count || 0 <= n < l) implies #[trigger] none_from(
                    t,
                    s,
                    n,
                    0,
                ) by {
                    let i = if n > line {
                        n - line
                    } else {
                        n - line + count
                    };
                    assert(down(line, i, count) == n);
                }
                if l == line && c >= col {
                    let i = choose|i: int|
                        {
                            &&& 0 <= i < hits(t, s, l).len()
                            &&& #[trigger] hits(t, s, l)[i] == c
                            &&& 0 <= c
                            &&& forall|j: int| 0 <= j < i ==> (#[trigger] hits(t, s, l)[j]) < 0
                        };
                    assert(hits(t, s, line)[i] < col);
                }
            }
        },
        None => {
            assert forall|n: int| 0 <= n < count implies #[trigger] none_from(t, s, n, 0) by {
                let i = if n > line {
                    n - line
                } else {
                    n - line + count
                };
                assert(down(line, i, count) == n);
            }
        },
    }
}

/// A search backward finds the nearest match before its start. A match on an
/// earlier line is the last there, and no match was passed: none on the start
/// line before the start, and none on the lines between. It goes on from the
/// bottom only where no line before the start matches, and finds nothing only
/// where no line does.
pub proof fn backward_finds_the_nearest(t: Seq<char>, s: Sought, line: int, col: int)
    requires
        0 <= line < line_count(t),
        0 <= col <= usize::MAX,
    ensures
        nearest_ahead(
            t,
            s,
            line,
            col,
            find_from(t, s.pattern, s.ignore_case, line, col, false, line_count(t) + 1),
        ),
{
    let count = line_count(t) as int;
    let far = usize::MAX as int;
    walk_up(t, s, line, col, 0);
    let found = find_from(t, s.pattern, s.ignore_case, line, col, false, line_count(t) + 1);
    match found {
        Some((l, c)) => {
            let k = choose|k: int|
                {
                    &&& 0 <= k <= count
                    &&& #[trigger] up(line, k, count) == l
                    &&& is_last(t, s, l, start(k, col, far), c)
                    &&& forall|i: int|
                        0 <= i < k ==> none_before(
                            t,
                            s,
                            #[trigger] up(line, i, count),
                            start(i, col, far),
                        )
                };
            if k > 0 {
                assert(none_before(t, s, up(line, 0, count), start(0, col, far)));
                assert forall|n: int| l < n < line implies #[trigger] none_before(
                    t,
                    s,
                    n,
                    far,
                ) by {
                    assert(up(line, line - n, count) == n);
                }
                assert forall|n: int|
                    l >= line && (0 <= n < line || l < n < count) implies #[trigger] none_before(
                    t,
                    s,
                    n,
                    far,
                ) by {
                    let i = if n < line {
                        line - n
                    } else {
                        line - n + count
                    };
                    assert(up(line, i, count) == n);
                }
                if l == line && c < col {
                    let i = choose|i: int|
                        {
                            &&& 0 <= i < hits(t, s, l).len()
                            &&& #[trigger] hits(t, s, l)[i] == c
                            &&& c < far
                            &&& forall|j: int|
                                i < j < hits(t, s, l).len() ==> (#[trigger] hits(t, s, l)[j]) >= far
                        };
                    assert(hits(t, s, line)[i] >= col);
                }
            }
        },
        None => {
            assert forall|n: int| 0 <= n < count implies #[trigger] none_before(
                t,
                s,
                n,
                far,
            ) by {
                let i = if n < line {
                    line - n
                } else {
                    line - n + count
                };
                assert(up(line, i, count) == n);
            }
        },
    }
}

proof fn chars_to_byte_is(t: Seq<char>, i: int, k: int)
    requires
        0 <= i <= k <= t.len(),
    ensures
        chars_to_byte(t, i, bytes_before(t, k) as int) == k,
    decreases k - i,
{
    bytes_grow(t, i, k);
    if i < k {
        chars_to_byte_is(t, i + 1, k);
    }
}

/// A match is found at the cluster that holds the character at which the match
/// starts.
pub proof fn matches_start_at_their_clusters(
    line: Seq<char>,
    pattern: Seq<char>,
    ignore_case: bool,
    i: int,
    k: int,
)
    requires
        0 <= i < pattern_matches(pattern, ignore_case, line).len(),
        0 <= k <= line.len(),
        pattern_matches(pattern, ignore_case, line)[i].0 == bytes_before(line, k),
    ensures
        match_cols(line, pattern, ignore_case).len() == pattern_matches(
            pattern,
            ignore_case,
            line,
        ).len(),
        match_cols(line, pattern, ignore_case)[i] == grapheme_col_of(line, k as nat),
{
    chars_to_byte_is(line, 0, k);
}

/// A search for a text goes to the nearest match behind the cursor, or, going
/// backward, before it; the match that the cursor stands on is looked at last.
/// Nothing but the cursor and what is noted of the search changes, and it is
/// told whether there is a match at all.
pub proof fn searches_go_to_the_nearest_match(
    e: Ed,
    after: Ed,
    text: Seq<char>,
    forward: bool,
    found: bool,
)
    requires
        searched(e, after, text, forward, found),
        e.wf(),
        0 <= e.cur().line() < line_count(e.cur().text),
        0 <= e.cur().col() < usize::MAX,
    ensures
        ({
            let b = e.cur();
            let pattern = literal_pattern(text, text.len() as int);
            let s = Sought { pattern, ignore_case: ignores_case(e, pattern) };
            let place = if found {
                Some((after.cur().line(), after.cur().col()))
            } else {
                None
            };
            &&& if forward {
                nearest_behind(b.text, s, b.line(), b.col() + 1, place)
            } else {
                nearest_ahead(b.text, s, b.line(), b.col(), place)
            }
            &&& after.cur().text == b.text
            &&& after.search == pattern
            &&& after.input.search_forward == forward
            &&& !found ==> after.cur() == b
        }),
{
    let b = e.cur();
    let pattern = literal_pattern(text, text.len() as int);
    let s = Sought { pattern, ignore_case: ignores_case(e, pattern) };
    if forward {
        forward_finds_the_nearest(b.text, s, b.line(), b.col() + 1);
    } else {
        backward_finds_the_nearest(b.text, s, b.line(), b.col());
    }
}

/// A pattern's characters that stand for something else.
pub open spec fn special(c: char) -> bool {
    "\\.+*?()|[]{}^$#&-~"@.contains(c)
}

/// A text in which a backslash stands before each character that means
/// something in a pattern.
pub open spec fn escaped(t: Seq<char>) -> Seq<char>
    decreases t.len(),
{
    if t.len() == 0 {
        t
    } else if special(t[0]) {
        seq!['\\', t[0]] + escaped(t.drop_first())
    } else {
        seq![t[0]] + escaped(t.drop_first())
    }
}

proof fn special_is(c: char)
    ensures
        special(c) == crate::editor::input::search::is_meta(c),
{
    reveal_strlit("\\.+*?()|[]{}^$#&-~");
    let all = "\\.+*?()|[]{}^$#&-~"@;
    assert(all.len() == 18);
    if crate::editor::input::search::is_meta(c) {
        assert(all[0] == '\\' && all[1] == '.' && all[2] == '+' && all[3] == '*' && all[4] == '?'
            && all[5] == '(' && all[6] == ')' && all[7] == '|' && all[8] == '[' && all[9] == ']'
            && all[10] == '{' && all[11] == '}' && all[12] == '^' && all[13] == '$' && all[14]
            == '#' && all[15] == '&' && all[16] == '-' && all[17] == '~');
    }
    if special(c) {
        let i = choose|i: int| 0 <= i < all.len() && all[i] == c;
        assert(all[i] == c);
    }
}

proof fn escaped_push(t: Seq<char>, c: char)
    ensures
        escaped(t.push(c)) == escaped(t) + if special(c) {
            seq!['\\', c]
        } else {
            seq![c]
        },
    decreases t.len(),
{
    let u = t.push(c);
    if t.len() == 0 {
        assert(u.drop_first() =~= Seq::<char>::empty());
        assert(escaped(Seq::<char>::empty()) =~= Seq::<char>::empty());
        assert(escaped(u) =~= escaped(t) + if special(c) {
            seq!['\\', c]
        } else {
            seq![c]
        });
    } else {
        assert(u.drop_first() =~= t.drop_first().push(c));
        escaped_push(t.drop_first(), c);
        assert(escaped(u) =~= escaped(t) + if special(c) {
            seq!['\\', c]
        } else {
            seq![c]
        });
    }
}

/// What is searched for is the text itself: a backslash stands before each of
/// its characters that means something in a pattern, and nothing else changes.
pub proof fn texts_are_sought_as_they_are(text: Seq<char>, k: int)
    requires
        0 <= k <= text.len(),
    ensures
        literal_pattern(text, k) == escaped(text.take(k)),
    decreases k,
{
    if k > 0 {
        texts_are_sought_as_they_are(text, k - 1);
        escaped_push(text.take(k - 1), text[k - 1]);
        assert(text.take(k) =~= text.take(k - 1).push(text[k - 1]));
        special_is(text[k - 1]);
        assert(literal_pattern(text, k) =~= escaped(text.take(k)));
    } else {
        assert(text.take(0) =~= Seq::<char>::empty());
        assert(escaped(Seq::<char>::empty()) =~= Seq::<char>::empty());
    }
}

/// Case counts unless it is to be ignored; and where upper-case letters are to
/// bring it back, it counts for a pattern that has one.
pub proof fn when_case_counts(e: Ed, pattern: Seq<char>, i: int)
    requires
        0 <= i < pattern.len(),
    ensures
        !e.options.ignorecase ==> !ignores_case(e, pattern),
        e.options.ignorecase && !e.options.smartcase ==> ignores_case(e, pattern),
        e.options.smartcase && uppercase(pattern[i]) ==> !ignores_case(e, pattern),
        e.options.ignorecase && (forall|j: int|
            0 <= j < pattern.len() ==> !uppercase(#[trigger] pattern[j])) ==> ignores_case(
            e,
            pattern,
        ),
{
}

/// A cluster of a line that belongs to a word.
pub open spec fn in_word(line: Seq<char>, k: int) -> bool {
    0 <= k < graphemes_of(line).len() && (alphanumeric(graphemes_of(line)[k][0]) || graphemes_of(
        line,
    )[k][0] == '_')
}

proof fn word_from_is(line: Seq<char>, k: int)
    requires
        0 <= k,
    ensures
        0 <= word_from(line, k) <= k,
        forall|j: int| word_from(line, k) <= j < k ==> #[trigger] in_word(line, j),
        !in_word(line, word_from(line, k) - 1),
    decreases k,
{
    assert(word_cluster(line, k - 1) == in_word(line, k - 1));
    if k > 0 && in_word(line, k - 1) {
        word_from_is(line, k - 1);
    }
}

proof fn word_to_is(line: Seq<char>, k: int)
    requires
        0 <= k,
    ensures
        k <= word_to(line, k),
        forall|j: int| k <= j < word_to(line, k) ==> #[trigger] in_word(line, j),
        !in_word(line, word_to(line, k)),
    decreases graphemes_of(line).len() - k,
{
    assert(word_cluster(line, k) == in_word(line, k));
    if in_word(line, k) {
        word_to_is(line, k + 1);
    }
}

/// The word under the cursor is the whole stretch of letters, digits and
/// underscores in which the cursor stands; where it stands in none there is no
/// word.
pub proof fn the_word_under_the_cursor_is_whole(b: Buf, from: int, to: int)
    requires
        0 <= from <= b.col() < to,
        forall|j: int| from <= j < to ==> #[trigger] in_word(b.here(), j),
        !in_word(b.here(), from - 1),
        !in_word(b.here(), to),
    ensures
        word_here(b) == Some(
            slice_of(
                b.here(),
                char_col_of(b.here(), from as nat) as int,
                char_col_of(b.here(), to as nat) as int,
            ),
        ),
{
    let line = b.here();
    assert(in_word(line, b.col()));
    assert(word_cluster(line, b.col()));
    word_from_is(line, b.col());
    word_to_is(line, b.col() + 1);
    let f = word_from(line, b.col());
    if f < from {
        assert(in_word(line, from - 1));
    } else if f > from {
        assert(in_word(line, f - 1));
    }
    let e = word_to(line, b.col() + 1);
    if e > to {
        assert(in_word(line, to));
    } else if e < to {
        assert(in_word(line, e));
    }
}

pub proof fn no_word_under_the_cursor(b: Buf)
    ensures
        0 <= b.col() && !in_word(b.here(), b.col()) ==> word_here(b) is None,
{
}

/// The lines of a selection of whole lines.
pub open spec fn line_list(t: Seq<char>, first: int, n: int) -> Seq<Seq<char>> {
    Seq::new(n as nat, |i: int| line_content(t, (first + i) as nat))
}

proof fn lines_are_joined(t: Seq<char>, first: int, line: int, last: int)
    requires
        0 <= first < line <= last + 1,
        last < line_count(t),
    ensures
        ({
            let n = line - first;
            let body = joined(line_list(t, first, last + 1 - first), n, "\n"@);
            lines_text(t, first, line, last) == if line <= last {
                body.push('\n')
            } else {
                body
            }
        }),
    decreases line - first,
{
    reveal_strlit("\n");
    let list = line_list(t, first, last + 1 - first);
    let n = line - first;
    let body = joined(list, n, "\n"@);
    if n > 1 {
        lines_are_joined(t, first, line - 1, last);
        assert(list[n - 1] == line_content(t, (line - 1) as nat));
        assert(lines_text(t, first, line, last) =~= if line <= last {
            body.push('\n')
        } else {
            body
        });
    } else {
        assert(lines_text(t, first, first, last) =~= Seq::<char>::empty());
        assert(list[0] == line_content(t, first as nat));
        assert(lines_text(t, first, line, last) =~= if line <= last {
            body.push('\n')
        } else {
            body
        });
    }
}

/// The text of a selection of whole lines is those lines, with a line feed
/// between two of them.
pub proof fn selected_lines_are_joined(e: Ed, first: (usize, usize), last: (usize, usize))
    requires
        e.input.mode == Mode::VisualLine,
        selection_of(e) == Some((first, last)),
        first.0 <= last.0 < line_count(e.cur().text),
    ensures
        ({
            let n = last.0 + 1 - first.0;
            selected_text(e) == Some(
                joined(line_list(e.cur().text, first.0 as int, n), n, "\n"@),
            )
        }),
{
    lines_are_joined(e.cur().text, first.0 as int, last.0 + 1, last.0 as int);
}

/// What a search for the selection looks for: what is selected, and where that
/// is nothing the word under the cursor.
pub proof fn what_is_sought(e: Ed)
    ensures
        match selected_text(e) {
            Some(text) if text.len() > 0 => search_subject(e) == Some(text),
            _ => search_subject(e) == word_here(e.cur()),
        },
{
}

} // verus!
