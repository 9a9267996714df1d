//! The smallest single replacement that turns one text into another.
use crate::buffer::line_holds_position;
use crate::editor::lsp_state::position_offset;
use crate::lines::{
    breaks_before, breaks_split, content_end, line_break_is, line_content, line_start,
    line_start_is,
};
use crate::lsp::{char_col_to_utf16, u32_of, utf16_before, utf16_round_trip, LspRange, Position};
use crate::text::{chars_of, slice_string};
use vstd::prelude::*;

verus! {

/// How many characters from the `k`th on two texts have in common.
pub open spec fn same_from(a: Seq<char>, b: Seq<char>, k: int) -> int
    decreases a.len() - k,
{
    if 0 <= k < a.len() && k < b.len() && a[k] == b[k] {
        same_from(a, b, k + 1)
    } else {
        k
    }
}

/// How many characters two texts have in common at their ends, behind the
/// first `p` of each, if they have `k` there.
pub open spec fn same_behind(a: Seq<char>, b: Seq<char>, p: int, k: int) -> int
    decreases a.len() - k,
{
    if 0 <= p && 0 <= k < a.len() - p && k < b.len() - p && a[a.len() - 1 - k] == b[b.len() - 1 - k] {
        same_behind(a, b, p, k + 1)
    } else {
        k
    }
}

/// The position of a place in a text.
pub open spec fn position_at(t: Seq<char>, i: int) -> Position {
    let line = breaks_before(t, i);
    Position {
        line: u32_of(line as int),
        character: u32_of(utf16_before(line_content(t, line), i - line_start(t, line)) as int),
    }
}

/// The range of a text that must be replaced to give another, and by what.
pub open spec fn diff_of(a: Seq<char>, b: Seq<char>) -> Option<(LspRange, Seq<char>)> {
    if a == b {
        None
    } else {
        let p = same_from(a, b, 0);
        let s = same_behind(a, b, p, 0);
        Some(
            (
                LspRange { start: position_at(a, p), end: position_at(a, a.len() - s) },
                b.subrange(p, b.len() - s),
            ),
        )
    }
}

/// A text with a range replaced.
pub open spec fn with_range(t: Seq<char>, r: LspRange, new: Seq<char>) -> Seq<char> {
    t.take(position_offset(t, r.start)) + new + t.skip(position_offset(t, r.end))
}

proof fn same_from_is(a: Seq<char>, b: Seq<char>, k: int)
    requires
        0 <= k <= a.len(),
        k <= b.len(),
        forall|i: int| 0 <= i < k ==> a[i] == b[i],
    ensures
        k <= same_from(a, b, k) <= a.len(),
        same_from(a, b, k) <= b.len(),
        forall|i: int| 0 <= i < same_from(a, b, k) ==> a[i] == b[i],
    decreases a.len() - k,
{
    if k < a.len() && k < b.len() && a[k] == b[k] {
        same_from_is(a, b, k + 1);
    }
}

/// Two texts have the same character at a distance from their ends.
pub open spec fn alike_behind(a: Seq<char>, b: Seq<char>, i: int) -> bool {
    a[a.len() - 1 - i] == b[b.len() - 1 - i]
}

proof fn same_behind_is(a: Seq<char>, b: Seq<char>, p: int, k: int)
    requires
        0 <= p <= a.len(),
        p <= b.len(),
        0 <= k <= a.len() - p,
        k <= b.len() - p,
        forall|i: int| 0 <= i < k ==> #[trigger] alike_behind(a, b, i),
    ensures
        k <= same_behind(a, b, p, k) <= a.len() - p,
        same_behind(a, b, p, k) <= b.len() - p,
        forall|i: int| 0 <= i < same_behind(a, b, p, k) ==> #[trigger] alike_behind(a, b, i),
    decreases a.len() - k,
{
    if k < a.len() - p && k < b.len() - p && a[a.len() - 1 - k] == b[b.len() - 1 - k] {
        assert(alike_behind(a, b, k));
        same_behind_is(a, b, p, k + 1);
    }
}

/// A position leads back to the place that it is of.
pub proof fn position_round_trip(t: Seq<char>, i: int)
    requires
        0 <= i <= t.len(),
        2 * t.len() < u32::MAX,
    ensures
        position_offset(t, position_at(t, i)) == i,
{
    let line = breaks_before(t, i);
    line_holds_position(t, i);
    line_start_is(t, line);
    breaks_split(t, i);
    few_breaks(t, i);
    let content = line_content(t, line);
    utf16_is_small(content, i - line_start(t, line));
    utf16_round_trip(content, i - line_start(t, line));
}

proof fn few_breaks(t: Seq<char>, i: int)
    requires
        0 <= i <= t.len(),
    ensures
        breaks_before(t, i) <= i,
    decreases i,
{
    if i > 0 {
        few_breaks(t, i - 1);
    }
}

proof fn utf16_is_small(t: Seq<char>, k: int)
    requires
        0 <= k <= t.len(),
    ensures
        utf16_before(t, k) <= 2 * k,
    decreases k,
{
    if k > 0 {
        utf16_is_small(t, k - 1);
    }
}

/// Replacing the range gives the other text.
pub proof fn diff_reconstructs(a: Seq<char>, b: Seq<char>)
    requires
        a != b,
        2 * a.len() < u32::MAX,
    ensures
        ({
            let (range, new) = diff_of(a, b)->0;
            with_range(a, range, new) == b
        }),
{
    let p = same_from(a, b, 0);
    same_from_is(a, b, 0);
    let s = same_behind(a, b, p, 0);
    same_behind_is(a, b, p, 0);
    position_round_trip(a, p);
    position_round_trip(a, a.len() - s);
    let (range, new) = diff_of(a, b)->0;
    let c = with_range(a, range, new);
    assert(c.len() == b.len());
    assert forall|i: int| 0 <= i < b.len() implies c[i] == b[i] by {
        if i >= b.len() - s {
            let j = b.len() - 1 - i;
            assert(alike_behind(a, b, j));
        }
    }
    assert(c =~= b);
}

fn to_u32(n: usize) -> (u: u32)
    ensures
        u == u32_of(n as int),
{
    if n <= u32::MAX as usize {
        n as u32
    } else {
        u32::MAX
    }
}

fn find_position(cs: &Vec<char>, at: usize) -> (p: Position)
    requires
        at <= cs.len(),
    ensures
        p == position_at(cs@, at as int),
{
    let ghost t = cs@;
    let mut line: usize = 0;
    let mut start: usize = 0;
    let mut k: usize = 0;
    while k < at
        invariant
            k <= at <= cs.len(),
            t == cs@,
            line == breaks_before(t, k as int),
            line <= k,
            start <= k,
            start == line_start(t, line as nat),
        decreases at - k,
    {
        proof {
            line_holds_position(t, k as int);
            line_break_is(t, start as int);
        }
        if cs[k] == '\n' {
            proof {
                assert(content_end(t, line as nat) == k);
                assert(line_start(t, (line + 1) as nat) == k + 1);
            }
            line += 1;
            start = k + 1;
        }
        k += 1;
    }
    proof {
        line_holds_position(t, at as int);
    }
    let mut end: usize = at;
    while end < cs.len() && cs[end] != '\n'
        invariant
            start <= at <= end <= cs.len(),
            t == cs@,
            forall|j: int| at <= j < end ==> t[j] != '\n',
        decreases cs.len() - end,
    {
        end += 1;
    }
    proof {
        line_break_is(t, start as int);
        line_holds_position(t, at as int);
        let e = content_end(t, line as nat);
        assert(e == end) by {
            if e < end {
                assert(t[e] == '\n');
            }
            if end < e {
                assert(t[end as int] == '\n');
            }
        }
    }
    let content = slice_string(cs, start, end);
    Position { line: to_u32(line), character: char_col_to_utf16(content.as_str(), at - start) }
}

/// The range of a text that must be replaced to give another, and by what;
/// nothing where the texts are the same.
pub fn compute_simple_diff(a: &str, b: &str) -> (res: Option<(LspRange, String)>)
    ensures
        match (res, diff_of(a@, b@)) {
            (Some(x), Some(y)) => x.0 == y.0 && x.1@ == y.1,
            (None, None) => true,
            _ => false,
        },
{
    let x = chars_of(a);
    let y = chars_of(b);
    let mut p: usize = 0;
    while p < x.len() && p < y.len() && x[p] == y[p]
        invariant
            p <= x.len(),
            p <= y.len(),
            forall|i: int| 0 <= i < p ==> x@[i] == y@[i],
            same_from(x@, y@, p as int) == same_from(x@, y@, 0),
        decreases x.len() - p,
    {
        p += 1;
    }
    if p == x.len() && p == y.len() {
        proof {
            assert(a@ =~= b@);
        }
        return None;
    }
    let mut s: usize = 0;
    while s < x.len() - p && s < y.len() - p && x[x.len() - 1 - s] == y[y.len() - 1 - s]
        invariant
            p <= x.len(),
            p <= y.len(),
            s <= x.len() - p,
            s <= y.len() - p,
            same_behind(x@, y@, p as int, s as int) == same_behind(x@, y@, p as int, 0),
        decreases x.len() - s,
    {
        s += 1;
    }
    proof {
        if a@ == b@ {
            same_from_is(a@, b@, 0);
            assert(x@[p as int] == y@[p as int]);
        }
    }
    let start = find_position(&x, p);
    let end = find_position(&x, x.len() - s);
    let new = slice_string(&y, p, y.len() - s);
    Some((LspRange { start, end }, new))
}

} // verus!
