//! Where the motions land: at the nearest place of the kind that they look
//! for, with none passed over.
use crate::buffer::{first_non_blank, Buf};
use crate::editor::motions::char_find::{find_target, nth_backward, nth_forward};
use crate::editor::motions::line::{first_col, last_col, last_non_blank_before};
use crate::editor::motions::word::{
    back_from, backward, backward_n, behind_word, class_start, end_backward, end_backward_n,
    end_forward, end_forward_n, forward, forward_n, next_start, next_text, skip_blanks,
    skip_blanks_is, skip_class_is, step_back, text_before, word_last,
};
use crate::editor::motions::{at, line_kinds, CharClass, Pos};
use crate::lines::{line_content, line_count};
use crate::unicode::{alphanumeric, grapheme_col_of, graphemes_of, whitespace};
use vstd::prelude::*;

verus! {

/// What a character is to the motions: white space; to the motions over
/// blank-separated words, a word character otherwise; a character of a script
/// without blanks; a letter, a digit or an underscore; or something else.
pub open spec fn sort_of(c: char, big: bool) -> CharClass {
    let n = c as u32;
    if whitespace(c) {
        CharClass::Whitespace
    } else if big {
        CharClass::Word
    } else if (0x3040 <= n <= 0x30FF) || (0x3400 <= n <= 0x4DBF) || (0x4E00 <= n <= 0x9FFF) || (
    0xAC00 <= n <= 0xD7AF) || (0xF900 <= n <= 0xFAFF) {
        CharClass::Cjk
    } else if c == '_' || alphanumeric(c) {
        CharClass::Word
    } else {
        CharClass::Punctuation
    }
}

/// What the clusters of a line are, by their first characters.
pub open spec fn sorts(t: Seq<char>, n: int, big: bool) -> Seq<CharClass> {
    let clusters = graphemes_of(line_content(t, n as nat));
    Seq::new(clusters.len(), |k: int| sort_of(clusters[k][0], big))
}

proof fn sorts_are(t: Seq<char>, n: int, big: bool)
    ensures
        sorts(t, n, big) == line_kinds(t, n, big),
{
    assert(sorts(t, n, big) =~= line_kinds(t, n, big));
}

/// A place lies before another.
pub open spec fn before(p: Pos, q: Pos) -> bool {
    p.line < q.line || (p.line == q.line && p.col < q.col)
}

pub open spec fn same_place(p: Pos, q: Pos) -> bool {
    p.line == q.line && p.col == q.col
}

/// A word begins at a place: an empty line is a word, and so is each cluster
/// of a script without blanks; otherwise a word is a stretch of clusters of
/// one sort.
pub open spec fn begins(t: Seq<char>, q: Pos, big: bool) -> bool {
    let s = sorts(t, q.line, big);
    &&& 0 <= q.line < line_count(t)
    &&& if s.len() == 0 {
        q.col == 0
    } else {
        &&& 0 <= q.col < s.len()
        &&& !(s[q.col] is Whitespace)
        &&& q.col == 0 || s[q.col] is Cjk || s[q.col - 1] != s[q.col]
    }
}

/// A word that is no empty line ends with the cluster at a place.
pub open spec fn finishes(t: Seq<char>, q: Pos, big: bool) -> bool {
    let s = sorts(t, q.line, big);
    &&& 0 <= q.line < line_count(t)
    &&& 0 <= q.col < s.len()
    &&& !(s[q.col] is Whitespace)
    &&& q.col == s.len() - 1 || s[q.col] is Cjk || s[q.col + 1] != s[q.col]
}

/// A place of a text, at most one behind the last cluster of its line.
pub open spec fn in_text(t: Seq<char>, p: Pos, big: bool) -> bool {
    0 <= p.line < line_count(t) && 0 <= p.col <= sorts(t, p.line, big).len()
}

proof fn class_run(ks: Seq<CharClass>, i: int, class: CharClass)
    requires
        0 <= i <= ks.len(),
    ensures
        0 <= class_start(ks, i, class) <= i,
        forall|j: int| class_start(ks, i, class) <= j < i ==> ks[j] == class,
        class_start(ks, i, class) > 0 ==> ks[class_start(ks, i, class) - 1] != class,
    decreases i,
{
    if i > 0 && ks[i - 1] == class {
        class_run(ks, i - 1, class);
    }
}

proof fn next_start_is_first(t: Seq<char>, n: int, big: bool)
    requires
        0 <= n,
    ensures
        match next_start(t, n, big) {
            Some((l, c)) => {
                &&& n <= l
                &&& begins(t, at(l, c), big)
                &&& forall|r: Pos|
                    n <= r.line && before(r, at(l, c)) ==> !(#[trigger] begins(t, r, big))
            },
            None => forall|r: Pos| n <= r.line ==> !(#[trigger] begins(t, r, big)),
        },
    decreases line_count(t) - n,
{
    if n < line_count(t) {
        let ks = line_kinds(t, n, big);
        sorts_are(t, n, big);
        skip_blanks_is(ks, 0);
        if ks.len() > 0 && skip_blanks(ks, 0) >= ks.len() {
            next_start_is_first(t, n + 1, big);
        }
    }
}

/// A step forward lands on the next word: where it ends a word begins, behind
/// where it started, and no word begins between. It stays only where no word
/// begins behind it.
pub proof fn forward_reaches_the_next_word(t: Seq<char>, p: Pos, big: bool)
    requires
        in_text(t, p, big),
    ensures
        ({
            let q = forward(t, p, big);
            &&& q == p || (begins(t, q, big) && before(p, q))
            &&& forall|r: Pos|
                before(p, r) && (q == p || before(r, q)) ==> !(#[trigger] begins(t, r, big))
        }),
{
    let ks = line_kinds(t, p.line, big);
    sorts_are(t, p.line, big);
    next_start_is_first(t, p.line + 1, big);
    if p.col < ks.len() {
        skip_class_is(ks, p.col + 1, ks[p.col]);
        skip_blanks_is(ks, behind_word(ks, p.col));
    }
}

proof fn back_is_nearest(t: Seq<char>, n: int, col: int, big: bool)
    requires
        0 <= n < line_count(t),
        0 < col <= line_kinds(t, n, big).len(),
    ensures
        ({
            let (l, c) = back_from(t, n, col, big);
            &&& 0 <= l <= n
            &&& begins(t, at(l, c), big) || (l == 0 && c == 0)
            &&& before(at(l, c), at(n, col))
            &&& forall|r: Pos|
                before(at(l, c), r) && before(r, at(n, col)) ==> !(#[trigger] begins(t, r, big))
        }),
    decreases n,
{
    let ks = line_kinds(t, n, big);
    sorts_are(t, n, big);
    class_run(ks, col, CharClass::Whitespace);
    let c = class_start(ks, col, CharClass::Whitespace);
    if c > 0 {
        class_run(ks, c, ks[c - 1]);
    } else if n > 0 {
        sorts_are(t, n - 1, big);
        let len = line_kinds(t, n - 1, big).len() as int;
        if len > 0 {
            back_is_nearest(t, n - 1, len, big);
        }
    }
}

/// A step back lands on the nearest word before: where it ends a word begins,
/// or the text does; it lies before where the step started; and no word
/// begins between, on the same line or on the lines between. It stays only at
/// the start of the text.
pub proof fn backward_reaches_the_word_before(t: Seq<char>, p: Pos, big: bool)
    requires
        in_text(t, p, big),
    ensures
        ({
            let q = backward(t, p, big);
            &&& begins(t, q, big) || (q.line == 0 && q.col == 0)
            &&& before(q, p) || (q == p && p.line == 0 && p.col == 0)
            &&& forall|r: Pos| before(q, r) && before(r, p) ==> !(#[trigger] begins(t, r, big))
        }),
{
    sorts_are(t, p.line, big);
    if p.col > 0 {
        back_is_nearest(t, p.line, p.col, big);
    } else if p.line > 0 {
        sorts_are(t, p.line - 1, big);
        let len = line_kinds(t, p.line - 1, big).len() as int;
        if len > 0 {
            back_is_nearest(t, p.line - 1, len, big);
        }
    }
}

/// A word of one cluster that is the first of its line.
pub open spec fn lone_first(t: Seq<char>, r: Pos, big: bool) -> bool {
    let s = sorts(t, r.line, big);
    &&& begins(t, r, big) && finishes(t, r, big)
    &&& forall|j: int| 0 <= j < r.col ==> s[j] is Whitespace
}

/// A place that a step to the end of a word looks at: behind where it started,
/// or there too where the word under the cursor counts.
pub open spec fn looked_at(p: Pos, r: Pos, current: bool) -> bool {
    before(p, r) || (current && same_place(p, r))
}

proof fn next_text_is_first(t: Seq<char>, n: int, big: bool)
    requires
        0 <= n,
    ensures
        match next_text(t, n, big) {
            Some((l, c)) => {
                let s = sorts(t, l, big);
                &&& n <= l < line_count(t)
                &&& 0 <= c < s.len()
                &&& !(s[c] is Whitespace)
                &&& forall|j: int| 0 <= j < c ==> s[j] is Whitespace
                &&& forall|r: Pos|
                    n <= r.line && before(r, at(l, c)) ==> !(#[trigger] finishes(t, r, big))
            },
            None => forall|r: Pos| n <= r.line ==> !(#[trigger] finishes(t, r, big)),
        },
    decreases line_count(t) - n,
{
    if n < line_count(t) {
        let ks = line_kinds(t, n, big);
        sorts_are(t, n, big);
        skip_blanks_is(ks, 0);
        if skip_blanks(ks, 0) >= ks.len() {
            next_text_is_first(t, n + 1, big);
        }
    }
}

/// A step to the end of a word lands on the nearest one that it looks at. A
/// word of one cluster that starts a line further down is passed over, unless
/// the word under the cursor counts. Where it lands on no end of a word, or
/// stays, there is none to reach.
pub proof fn end_forward_reaches_the_next_end(t: Seq<char>, p: Pos, big: bool, current: bool)
    requires
        in_text(t, p, big),
    ensures
        ({
            let q = end_forward(t, p, big, current);
            &&& same_place(p, q) || before(p, q)
            &&& 0 <= q.line < line_count(t)
            &&& forall|r: Pos|
                looked_at(p, r, current) && before(r, q) && #[trigger] finishes(t, r, big)
                    ==> !current && r.line > p.line && lone_first(t, r, big)
            &&& !finishes(t, q, big) || (same_place(p, q) && !current) ==> forall|r: Pos|
                looked_at(p, r, current) && #[trigger] finishes(t, r, big) ==> !current && r.line
                    > p.line && lone_first(t, r, big)
        }),
    decreases line_count(t) - p.line,
{
    let ks = line_kinds(t, p.line, big);
    let count = line_count(t) as int;
    sorts_are(t, p.line, big);
    let q = end_forward(t, p, big, current);
    if ks.len() == 0 {
        next_text_is_first(t, p.line + 1, big);
        match next_text(t, p.line + 1, big) {
            Some((l, c)) => {
                end_forward_reaches_the_next_end(t, at(l, c), big, current);
                further_down(t, p, at(l, c), big, current);
            },
            None => {
                assert(!finishes(t, q, big));
            },
        }
    } else {
        let word = p.col < ks.len() && !(ks[p.col] is Whitespace);
        if word {
            skip_class_is(ks, p.col + 1, ks[p.col]);
        }
        if word && (current || p.col < word_last(ks, p.col)) {
            assert(finishes(t, q, big));
        } else {
            let from = if word {
                p.col + 1
            } else {
                p.col
            };
            skip_blanks_is(ks, from);
            let s = skip_blanks(ks, from);
            if s < ks.len() {
                skip_class_is(ks, s + 1, ks[s]);
                assert(finishes(t, q, big));
            } else if p.line + 1 < count {
                let next = at(p.line + 1, 0);
                end_forward_reaches_the_next_end(t, next, big, current);
                further_down(t, p, next, big, current);
            }
        }
    }
}

/// A step that goes on from the first text of a line further down.
proof fn further_down(t: Seq<char>, p: Pos, next: Pos, big: bool, current: bool)
    requires
        in_text(t, p, big),
        in_text(t, next, big),
        p.line < next.line,
        forall|j: int| 0 <= j < next.col ==> sorts(t, next.line, big)[j] is Whitespace,
        forall|r: Pos| before(p, r) && before(r, next) ==> !(#[trigger] finishes(t, r, big)),
        current ==> !finishes(t, p, big),
        ({
            let q = end_forward(t, next, big, current);
            &&& same_place(next, q) || before(next, q)
            &&& forall|r: Pos|
                looked_at(next, r, current) && before(r, q) && #[trigger] finishes(t, r, big)
                    ==> !current && r.line > next.line && lone_first(t, r, big)
            &&& !finishes(t, q, big) || (same_place(next, q) && !current) ==> forall|r: Pos|
                looked_at(next, r, current) && #[trigger] finishes(t, r, big) ==> !current
                    && r.line > next.line && lone_first(t, r, big)
        }),
    ensures
        ({
            let q = end_forward(t, next, big, current);
            &&& forall|r: Pos|
                looked_at(p, r, current) && before(r, q) && #[trigger] finishes(t, r, big)
                    ==> !current && r.line > p.line && lone_first(t, r, big)
            &&& !finishes(t, q, big) ==> forall|r: Pos|
                looked_at(p, r, current) && #[trigger] finishes(t, r, big) ==> !current && r.line
                    > p.line && lone_first(t, r, big)
        }),
{
    let q = end_forward(t, next, big, current);
    assert forall|r: Pos| same_place(r, next) && !current && #[trigger] finishes(
        t,
        r,
        big,
    ) implies lone_first(t, r, big) by {
        let s = sorts(t, r.line, big);
        if r.col > 0 {
            assert(s[r.col - 1] is Whitespace);
        }
    }
}

/// Nothing but white space stands between two places.
#[verifier::opaque]
spec fn only_blanks(t: Seq<char>, q: Pos, p: Pos, big: bool) -> bool {
    forall|n: int, k: int|
        #![trigger sorts(t, n, big)[k]]
        before(q, at(n, k)) && before(at(n, k), p) && 0 <= k < sorts(t, n, big).len() ==> sorts(
            t,
            n,
            big,
        )[k] is Whitespace
}

/// A cluster that is no white space stands at a place.
spec fn is_text(t: Seq<char>, q: Pos, big: bool) -> bool {
    0 <= q.col < sorts(t, q.line, big).len() && !(sorts(t, q.line, big)[q.col] is Whitespace)
}

proof fn text_before_is_last(t: Seq<char>, n: int, col: int, big: bool)
    requires
        0 <= n < line_count(t),
        0 <= col,
    ensures
        ({
            let (l, c) = text_before(t, n, col, big);
            &&& 0 <= l <= n
            &&& 0 <= c
            &&& is_text(t, at(l, c), big) || (l == 0 && c == 0)
            &&& l == n ==> c <= col
            &&& only_blanks(t, at(l, c), at(n, col + 1), big)
        }),
    decreases n,
{
    reveal(only_blanks);
    let ks = line_kinds(t, n, big);
    sorts_are(t, n, big);
    let from = if col + 1 < ks.len() {
        col + 1
    } else {
        ks.len() as int
    };
    class_run(ks, from, CharClass::Whitespace);
    let c = class_start(ks, from, CharClass::Whitespace);
    if c <= 0 && n > 0 {
        let len = line_kinds(t, n - 1, big).len() as int;
        sorts_are(t, n - 1, big);
        let last = if len > 0 {
            len - 1
        } else {
            0
        };
        text_before_is_last(t, n - 1, last, big);
    }
}

/// The last text before a place.
proof fn stop_before(t: Seq<char>, p: Pos, big: bool)
    requires
        in_text(t, p, big),
        p.line > 0 || p.col > 0,
    ensures
        ({
            let b = step_back(t, p.line, p.col, big);
            let (l, c) = text_before(t, b.0, b.1, big);
            &&& 0 <= l < line_count(t)
            &&& 0 <= c
            &&& before(at(l, c), p)
            &&& is_text(t, at(l, c), big) || (l == 0 && c == 0)
            &&& only_blanks(t, at(l, c), p, big)
        }),
{
    reveal(only_blanks);
    let b = step_back(t, p.line, p.col, big);
    if p.col == 0 {
        sorts_are(t, p.line - 1, big);
    }
    text_before_is_last(t, b.0, b.1, big);
}

/// A step back to the end of a word lands on the nearest one before, or, where
/// there is none, on the start of the text, or stays. Of a stretch of clusters
/// of a script without blanks in which the cursor stands, none counts.
pub proof fn end_backward_reaches_the_end_before(t: Seq<char>, p: Pos, big: bool)
    requires
        in_text(t, p, big),
    ensures
        ({
            let q = end_backward(t, p, big);
            &&& before(q, p) || q == p
            &&& finishes(t, q, big) || q == p || (q.line == 0 && q.col == 0)
            &&& forall|r: Pos|
                before(r, p) && (before(q, r) || !finishes(t, q, big) || q == p)
                    && #[trigger] finishes(t, r, big) ==> r.line == p.line && sorts(
                    t,
                    r.line,
                    big,
                )[r.col] is Cjk
        }),
{
    sorts_are(t, p.line, big);
    if p.line > 0 || p.col > 0 {
        let b = step_back(t, p.line, p.col, big);
        let (n, c) = text_before(t, b.0, b.1, big);
        stop_before(t, p, big);
        sorts_are(t, n, big);
        let own = sorts(t, p.line, big);
        let ks = sorts(t, n, big);
        if ks.len() == 0 {
            blanks_hold_no_ends(t, at(n, c), p, big);
        } else {
            let class = ks[c];
            if n != p.line || !(p.col < own.len() && own[p.col] == class) || c < p.col - 1 {
                blanks_hold_no_ends(t, at(n, c), p, big);
                text_before_blanks_ends(t, at(n, c), p, big);
                if !is_text(t, at(n, c), big) {
                    assert forall|r: Pos| before(r, p) implies !(#[trigger] finishes(
                        t,
                        r,
                        big,
                    )) by {
                        if same_place(r, at(n, c)) {
                            assert(!finishes(t, r, big));
                        }
                    }
                }
            } else {
                back_over_a_stretch(t, p, n, c, big);
            }
        }
    }
}

/// Back over the stretch of one sort in which the cursor stands.
proof fn back_over_a_stretch(t: Seq<char>, p: Pos, n: int, c: int, big: bool)
    requires
        in_text(t, p, big),
        n == p.line,
        c == p.col - 1,
        0 <= c,
        p.col < sorts(t, n, big).len(),
        sorts(t, n, big)[p.col] == sorts(t, n, big)[c],
    ensures
        ({
            let ks = sorts(t, n, big);
            let s = class_start(ks, c, ks[c]);
            let a = step_back(t, n, s, big);
            let (l, d) = text_before(t, a.0, a.1, big);
            let q = if s == 0 && n == 0 {
                p
            } else {
                at(l, d)
            };
            &&& before(q, p) || q == p
            &&& finishes(t, q, big) || q == p || (q.line == 0 && q.col == 0)
            &&& forall|r: Pos|
                before(r, p) && (before(q, r) || !finishes(t, q, big) || q == p)
                    && #[trigger] finishes(t, r, big) ==> r.line == p.line && sorts(
                    t,
                    r.line,
                    big,
                )[r.col] is Cjk
        }),
{
    let ks = sorts(t, n, big);
    let class = ks[c];
    class_run(ks, c, class);
    let s = class_start(ks, c, class);
    let start = at(n, s);
    assert forall|r: Pos|
        (before(start, r) || same_place(start, r)) && before(r, p) && #[trigger] finishes(
            t,
            r,
            big,
        ) implies r.line == p.line && sorts(t, r.line, big)[r.col] is Cjk by {
        assert(ks[r.col] == class);
        assert(ks[r.col + 1] == class);
    }
    if !(s == 0 && n == 0) {
        stop_before(t, start, big);
        let a = step_back(t, n, s, big);
        let (l, d) = text_before(t, a.0, a.1, big);
        let q = at(l, d);
        blanks_hold_no_ends(t, q, start, big);
        text_before_blanks_ends(t, q, start, big);
        assert forall|r: Pos|
            before(r, p) && (before(q, r) || !finishes(t, q, big) || q == p)
                && #[trigger] finishes(t, r, big) implies r.line == p.line && sorts(
            t,
            r.line,
            big,
        )[r.col] is Cjk by {
            if before(r, start) {
                if before(q, r) {
                    assert(!finishes(t, r, big));
                } else {
                    assert(same_place(r, q));
                    assert(finishes(t, q, big));
                }
            }
        }
    }
}

proof fn blanks_hold_no_ends(t: Seq<char>, q: Pos, p: Pos, big: bool)
    requires
        only_blanks(t, q, p, big),
    ensures
        forall|r: Pos| before(q, r) && before(r, p) ==> !(#[trigger] finishes(t, r, big)),
{
    reveal(only_blanks);
    assert forall|r: Pos| before(q, r) && before(r, p) implies !(#[trigger] finishes(
        t,
        r,
        big,
    )) by {
        if finishes(t, r, big) {
            assert(before(q, at(r.line, r.col)));
            assert(sorts(t, r.line, big)[r.col] is Whitespace);
        }
    }
}

/// The last text before a place ends a word, where the cluster at the place is
/// of another sort or does not stand directly behind it.
proof fn text_before_blanks_ends(t: Seq<char>, q: Pos, p: Pos, big: bool)
    requires
        only_blanks(t, q, p, big),
        before(q, p),
        0 <= q.line < line_count(t),
        q.line == p.line && q.col == p.col - 1 && p.col < sorts(t, p.line, big).len() ==> sorts(
            t,
            p.line,
            big,
        )[p.col] != sorts(t, p.line, big)[q.col],
    ensures
        is_text(t, q, big) ==> finishes(t, q, big),
{
    reveal(only_blanks);
    let s = sorts(t, q.line, big);
    if is_text(t, q, big) && q.col < s.len() - 1 {
        let r = at(q.line, q.col + 1);
        if before(r, p) {
            assert(sorts(t, r.line, big)[r.col] is Whitespace);
        }
    }
}

/// A count repeats a motion: one is one step, and two counts one after the
/// other are their sum. Only the first step to the end of a word may stay on
/// the word under the cursor.
pub proof fn counts_repeat_steps(
    t: Seq<char>,
    p: Pos,
    big: bool,
    current: bool,
    m: nat,
    n: nat,
)
    ensures
        forward_n(t, p, big, 1) == forward(t, p, big),
        backward_n(t, p, big, 1) == backward(t, p, big),
        end_forward_n(t, p, big, current, 1) == end_forward(t, p, big, current),
        end_backward_n(t, p, big, 1) == end_backward(t, p, big),
        forward_n(t, p, big, m + n) == forward_n(t, forward_n(t, p, big, m), big, n),
        backward_n(t, p, big, m + n) == backward_n(t, backward_n(t, p, big, m), big, n),
        m > 0 ==> end_forward_n(t, p, big, current, m + n) == end_forward_n(
            t,
            end_forward_n(t, p, big, current, m),
            big,
            false,
            n,
        ),
        end_backward_n(t, p, big, m + n) == end_backward_n(t, end_backward_n(t, p, big, m), big, n),
    decreases n,
{
    reveal_with_fuel(forward_n, 2);
    reveal_with_fuel(backward_n, 2);
    reveal_with_fuel(end_forward_n, 2);
    reveal_with_fuel(end_backward_n, 2);
    if n > 0 {
        let k = (n - 1) as nat;
        counts_repeat_steps(t, p, big, current, m, k);
        assert((m + n - 1) as nat == m + k);
    }
}

/// How many of the characters from `i` up to before `k` are a given one.
pub open spec fn occurrences(line: Seq<char>, i: int, k: int, c: char) -> nat
    decreases k - i,
{
    if k <= i || k > line.len() {
        0
    } else {
        occurrences(line, i, k - 1, c) + if line[k - 1] == c {
            1nat
        } else {
            0nat
        }
    }
}

proof fn occurrences_from(line: Seq<char>, i: int, k: int, c: char)
    requires
        0 <= i < k <= line.len(),
    ensures
        occurrences(line, i, k, c) == occurrences(line, i + 1, k, c) + if line[i] == c {
            1nat
        } else {
            0nat
        },
    decreases k - i,
{
    reveal_with_fuel(occurrences, 2);
    if k > i + 1 {
        occurrences_from(line, i, k - 1, c);
    }
}

proof fn nth_forward_is(line: Seq<char>, i: int, c: char, n: nat)
    requires
        0 <= i <= line.len(),
        n > 0,
    ensures
        match nth_forward(line, i, c, n) {
            Some(k) => i <= k < line.len() && line[k] == c && occurrences(line, i, k, c) == n - 1,
            None => occurrences(line, i, line.len() as int, c) < n,
        },
    decreases line.len() - i,
{
    if i < line.len() {
        occurrences_from(line, i, line.len() as int, c);
        if line[i] == c {
            if n > 1 {
                nth_forward_is(line, i + 1, c, (n - 1) as nat);
            }
        } else {
            nth_forward_is(line, i + 1, c, n);
        }
        if let Some(k) = nth_forward(line, i, c, n) {
            if k > i {
                occurrences_from(line, i, k, c);
            }
        }
    }
}

proof fn nth_backward_is(line: Seq<char>, i: int, c: char, n: nat)
    requires
        0 <= i <= line.len(),
        n > 0,
    ensures
        match nth_backward(line, i, c, n) {
            Some(k) => 0 <= k < i && line[k] == c && occurrences(line, k + 1, i, c) == n - 1,
            None => occurrences(line, 0, i, c) < n,
        },
    decreases i,
{
    if i > 0 {
        if line[i - 1] == c {
            if n > 1 {
                nth_backward_is(line, i - 1, c, (n - 1) as nat);
            }
        } else {
            nth_backward_is(line, i - 1, c, n);
        }
    }
}

/// A find motion goes to the occurrence of the character that its count names,
/// counted from the cursor, on the cursor's line; a motion up to it stops one
/// character short. It fails where there are too few, and a motion up to the
/// character also where that would not move the cursor on.
pub proof fn finds_go_to_the_counted_character(b: Buf, c: char, n: nat, forward: bool, till: bool)
    requires
        n > 0,
        0 <= b.line() < line_count(b.text),
        0 <= b.char_col() < b.here().len(),
    ensures
        ({
            let line = b.here();
            let from = b.char_col();
            let end = line.len() as int;
            match find_target(b, c, n, forward, till) {
                Some(k) => {
                    let hit = if !till {
                        k
                    } else if forward {
                        k + 1
                    } else {
                        k - 1
                    };
                    &&& 0 <= hit < end
                    &&& line[hit] == c
                    &&& if forward {
                        from < k && occurrences(line, from + 1, hit, c) == n - 1
                    } else {
                        k < from && occurrences(line, hit + 1, from, c) == n - 1
                    }
                },
                None => if forward {
                    occurrences(line, from + 1, end, c) < n || (till && n == 1 && line[from + 1]
                        == c)
                } else {
                    occurrences(line, 0, from, c) < n || (till && n == 1 && line[from - 1] == c)
                },
            }
        }),
{
    let line = b.here();
    let from = b.char_col();
    if forward {
        nth_forward_is(line, from + 1, c, n);
    } else {
        nth_backward_is(line, from, c, n);
    }
}

proof fn first_text_is(line: Seq<char>, i: int)
    requires
        0 <= i <= line.len(),
    ensures
        i <= first_non_blank(line, i) <= line.len(),
        forall|j: int| i <= j < first_non_blank(line, i) ==> whitespace(line[j]),
        first_non_blank(line, i) < line.len() ==> !whitespace(line[first_non_blank(line, i)]),
    decreases line.len() - i,
{
    if i < line.len() && whitespace(line[i]) {
        first_text_is(line, i + 1);
    }
}

proof fn last_text_is(line: Seq<char>, k: int)
    requires
        0 <= k <= line.len(),
    ensures
        match last_non_blank_before(line, k) {
            Some(c) => 0 <= c < k && !whitespace(line[c]) && forall|j: int|
                c < j < k ==> whitespace(line[j]),
            None => forall|j: int| 0 <= j < k ==> whitespace(line[j]),
        },
    decreases k,
{
    if k > 0 && whitespace(line[k - 1]) {
        last_text_is(line, k - 1);
    }
}

/// The first and the last text of a line: the clusters of the first and of the
/// last character that is no white space. Of a blank line they are its start.
pub proof fn ends_of_the_text_of_a_line(line: Seq<char>, first: int, last: int)
    requires
        0 <= first <= last < line.len(),
        !whitespace(line[first]),
        !whitespace(line[last]),
        forall|j: int| 0 <= j < first ==> whitespace(#[trigger] line[j]),
        forall|j: int| last < j < line.len() ==> whitespace(#[trigger] line[j]),
    ensures
        first_col(line) == grapheme_col_of(line, first as nat),
        last_col(line) == grapheme_col_of(line, last as nat),
{
    first_text_is(line, 0);
    last_text_is(line, line.len() as int);
    let f = first_non_blank(line, 0);
    assert(f == first);
    let l = last_non_blank_before(line, line.len() as int);
    assert(l == Some(last));
}

/// Of a blank line the first and the last text are its start.
pub proof fn blank_lines_have_no_text(line: Seq<char>)
    requires
        forall|j: int| 0 <= j < line.len() ==> whitespace(#[trigger] line[j]),
    ensures
        first_col(line) == 0,
        last_col(line) == 0,
{
    first_text_is(line, 0);
    last_text_is(line, line.len() as int);
}

/// A motion that moves the cursor sets the column that steps between lines
/// then keep: that of the place where it lands.
pub proof fn motions_set_the_kept_column(t: Seq<char>, p: Pos, big: bool)
    ensures
        forward(t, p, big) == p || forward(t, p, big).goal == forward(t, p, big).col,
        backward(t, p, big) == p || backward(t, p, big).goal == backward(t, p, big).col,
        end_backward(t, p, big) == p || end_backward(t, p, big).goal == end_backward(t, p, big).col,
        at(p.line, p.col).goal == p.col,
{
}

} // verus!
