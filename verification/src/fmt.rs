//! Numbers, padding and joining, as text.
use crate::lines::{content_end, line_break_from, line_content, line_start};
use crate::text::{chars_of, slice_string};
use crate::text_index::{byte_length, bytes_before};
use vstd::prelude::*;

verus! {

/// The decimal digits of a number.
pub open spec fn digits(n: nat) -> Seq<char>
    decreases n,
{
    if n < 10 {
        seq![(48 + n) as char]
    } else {
        digits(n / 10).push((48 + n % 10) as char)
    }
}

/// The decimal digits of a number.
pub fn decimal(n: u64) -> (s: String)
    ensures
        s@ == digits(n as nat),
    decreases n,
{
    let last: u8 = (n % 10) as u8;
    let c = (48u8 + last) as char;
    if n < 10 {
        let mut s = String::new();
        s.push(c);
        proof {
            assert(s@ =~= digits(n as nat));
        }
        s
    } else {
        let mut s = decimal(n / 10);
        s.push(c);
        s
    }
}

/// `n` copies of a character.
pub open spec fn repeated(c: char, n: int) -> Seq<char> {
    Seq::new(n as nat, |k: int| c)
}

/// `n` copies of a character.
pub fn repeat_char(c: char, n: usize) -> (s: String)
    ensures
        s@ == repeated(c, n as int),
{
    let mut s = String::new();
    let mut k: usize = 0;
    proof {
        assert(s@ =~= repeated(c, 0));
    }
    while k < n
        invariant
            k <= n,
            s@ == repeated(c, k as int),
        decreases n - k,
    {
        s.push(c);
        k += 1;
        proof {
            assert(s@ =~= repeated(c, k as int));
        }
    }
    s
}

/// How many bytes a text takes in UTF-8.
pub open spec fn byte_count(t: Seq<char>) -> nat {
    bytes_before(t, t.len() as int)
}

/// How many bytes a text takes in UTF-8.
pub fn byte_len(s: &str) -> (n: usize)
    ensures
        n == byte_count(s@),
{
    proof {
        byte_length(s@);
    }
    s.as_bytes().len()
}

/// The characters of an optional text.
pub open spec fn opt_view(o: Option<String>) -> Option<Seq<char>> {
    match o {
        Some(s) => Some(s@),
        None => None,
    }
}

/// Whether two optional texts are equal.
pub fn same_option(a: &Option<String>, b: &Option<String>) -> (res: bool)
    ensures
        res == (opt_view(*a) == opt_view(*b)),
{
    match (a, b) {
        (Some(a), Some(b)) => crate::text::same_text(a.as_str(), b.as_str()),
        (None, None) => true,
        _ => false,
    }
}

/// A copy of an optional text.
pub fn copy_option(a: &Option<String>) -> (res: Option<String>)
    ensures
        opt_view(res) == opt_view(*a),
{
    match a {
        Some(s) => Some(s.clone()),
        None => None,
    }
}

/// The first `k` parts with a separator between neighbours.
pub open spec fn joined(parts: Seq<Seq<char>>, k: int, separator: Seq<char>) -> Seq<char>
    decreases k,
{
    if k <= 0 || k > parts.len() {
        Seq::empty()
    } else if k == 1 {
        parts[0]
    } else {
        joined(parts, k - 1, separator) + separator + parts[k - 1]
    }
}

/// The parts with a separator between neighbours.
pub fn join(parts: &Vec<String>, separator: &str) -> (out: String)
    ensures
        out@ == joined(crate::unicode::views(parts@), parts.len() as int, separator@),
{
    let ghost v = crate::unicode::views(parts@);
    let mut out = String::new();
    let mut k: usize = 0;
    while k < parts.len()
        invariant
            k <= parts.len(),
            v == crate::unicode::views(parts@),
            out@ == joined(v, k as int, separator@),
        decreases parts.len() - k,
    {
        proof {
            assert(v[k as int] == parts@[k as int]@);
        }
        if k > 0 {
            out.append(separator);
        }
        let ghost before = out@;
        out.append(parts[k].as_str());
        k += 1;
        proof {
            if k == 1 {
                assert(out@ =~= v[0]);
            }
        }
    }
    out
}

/// Line `n` of a text, without its line feed and without a carriage return
/// directly before it.
pub open spec fn text_line(t: Seq<char>, n: nat) -> Seq<char> {
    let c = line_content(t, n);
    if content_end(t, n) < t.len() && c.len() > 0 && c.last() == '\r' {
        c.drop_last()
    } else {
        c
    }
}

/// How many lines a text has; a final line feed ends the last line.
pub open spec fn text_line_count(t: Seq<char>) -> nat {
    if t.len() == 0 {
        0
    } else {
        crate::lines::line_count(t)
    }
}

/// The lines of a text, without their ends.
pub fn text_lines(text: &str) -> (out: Vec<String>)
    ensures
        out.len() == text_line_count(text@),
        forall|n: int| 0 <= n < out.len() ==> (#[trigger] out@[n])@ == text_line(text@, n as nat),
{
    let cs = chars_of(text);
    let ghost t = text@;
    let mut out: Vec<String> = Vec::new();
    let mut start: usize = 0;
    proof {
        if t.len() > 0 {
            last_line(t, 0, 0);
        }
    }
    while start < cs.len()
        invariant
            cs@ == t,
            start <= cs.len(),
            out.len() <= start,
            start < cs.len() ==> start == line_start(t, out.len() as nat),
            start < cs.len() ==> text_line_count(t) == out.len() + lines_left(t, start as int),
            start == cs.len() ==> text_line_count(t) == out.len(),
            forall|n: int| 0 <= n < out.len() ==> (#[trigger] out@[n])@ == text_line(t, n as nat),
        decreases cs.len() - start,
    {
        let mut end: usize = start;
        while end < cs.len() && cs[end] != '\n'
            invariant
                cs@ == t,
                start <= end <= cs.len(),
                line_break_from(t, end as int) == line_break_from(t, start as int),
            decreases cs.len() - end,
        {
            end += 1;
        }
        let ghost n = out.len() as nat;
        proof {
            crate::lines::line_break_is(t, start as int);
            last_line(t, n, start as int);
        }
        let stop: usize = if end < cs.len() && end > start && cs[end - 1] == '\r' {
            end - 1
        } else {
            end
        };
        let line = slice_string(&cs, start, stop);
        proof {
            assert(line_content(t, n) =~= t.subrange(start as int, end as int));
            assert(line@ =~= text_line(t, n));
        }
        out.push(line);
        if end < cs.len() {
            start = end + 1;
        } else {
            start = end;
        }
    }
    out
}

/// How many lines start at or behind `i`, where a line starts at `i`.
pub open spec fn lines_left(t: Seq<char>, i: int) -> nat {
    crate::lines::breaks_from(t, i) + if t.len() > 0 && t.last() == '\n' {
        0nat
    } else {
        1nat
    }
}

pub(crate) proof fn last_line(t: Seq<char>, n: nat, i: int)
    requires
        0 <= i < t.len(),
        i == line_start(t, n),
    ensures
        i == 0 ==> text_line_count(t) == lines_left(t, 0),
        line_break_from(t, i) + 1 < t.len() ==> lines_left(t, i) == 1 + lines_left(
            t,
            line_break_from(t, i) + 1,
        ),
        line_break_from(t, i) + 1 >= t.len() ==> lines_left(t, i) == 1,
        line_break_from(t, i) + 1 < t.len() ==> line_start(t, n + 1) == line_break_from(t, i) + 1,
{
    crate::lines::line_break_is(t, i);
    let b = line_break_from(t, i);
    if b + 1 == t.len() {
        assert(t.last() == '\n');
        assert(crate::lines::breaks_from(t, b + 1) == 0);
    } else if b == t.len() {
        assert(t[t.len() - 1] != '\n');
    }
}

/// The stretches that the line feeds cut a text into.
pub fn split_breaks(text: &str) -> (out: Vec<String>)
    ensures
        out.len() == crate::lines::raw_line_count(text@),
        forall|n: int|
            0 <= n < out.len() ==> (#[trigger] out@[n])@ == line_content(text@, n as nat),
{
    let cs = chars_of(text);
    let ghost t = text@;
    let mut out: Vec<String> = Vec::new();
    let mut start: usize = 0;
    let mut open = true;
    while open
        invariant
            cs@ == t,
            start <= cs.len(),
            out.len() <= start + 1,
            open ==> out.len() <= start && start == line_start(t, out.len() as nat)
                && crate::lines::raw_line_count(t) == out.len() + 1 + crate::lines::breaks_from(
                t,
                start as int,
            ),
            !open ==> out.len() == crate::lines::raw_line_count(t),
            forall|n: int|
                0 <= n < out.len() ==> (#[trigger] out@[n])@ == line_content(t, n as nat),
        decreases cs.len() - start + (if open { 1int } else { 0int }),
    {
        let mut end: usize = start;
        while end < cs.len() && cs[end] != '\n'
            invariant
                cs@ == t,
                start <= end <= cs.len(),
                line_break_from(t, end as int) == line_break_from(t, start as int),
            decreases cs.len() - end,
        {
            end += 1;
        }
        let ghost n = out.len() as nat;
        proof {
            crate::lines::line_break_is(t, start as int);
        }
        let line = slice_string(&cs, start, end);
        proof {
            assert(line@ =~= line_content(t, n));
        }
        out.push(line);
        if end < cs.len() {
            start = end + 1;
        } else {
            open = false;
        }
    }
    out
}

} // verus!
