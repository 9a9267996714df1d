//! The pages of a comparison, read one after the other, hold all of it.
use crate::ai::diff_pages::{
    char_at_byte, char_found, cursors_stay_valid, line_at, lines_from,
    lines_in, page_at, page_lines_fit, pages_lose_nothing, shown_lines, starts_at_zero, Page,
};
use crate::native_diff::ReviewSnapshot;
use crate::text_index::{bytes_before, bytes_grow};
use vstd::prelude::*;

verus! {

/// The first `k` lines, each with its line feed.
pub open spec fn ended(lines: Seq<Seq<char>>, k: int) -> Seq<char>
    decreases k,
{
    if k <= 0 || k > lines.len() {
        Seq::empty()
    } else {
        (ended(lines, k - 1) + lines[k - 1]).push('\n')
    }
}

/// The changed text that a page holds: whole lines with their line feeds, or
/// the part of a line.
pub open spec fn page_text(r: Page) -> Seq<char> {
    let lines = shown_lines(r.blocks, r.blocks.len() as int);
    if r.shown.next_byte is Some && lines.len() > 0 {
        lines[0]
    } else {
        ended(lines, lines.len() as int)
    }
}

/// Where the page behind a page starts in its line.
pub open spec fn next_start(r: Page) -> int {
    match r.shown.next_byte {
        Some(byte) => byte,
        None => 0,
    }
}

/// The changed text that the pages from one on hold together, each read from
/// the cursor that the one before gives out.
pub open spec fn pages_text(s: ReviewSnapshot, line: int, byte: int, limit: int) -> Seq<char>
    decreases
            lines_in(s.blocks@, s.blocks@.len() as int) - line,
            bytes_before(line_at(s, 0, line), line_at(s, 0, line).len() as int) - byte,
{
    if line < 0 || line >= lines_in(s.blocks@, s.blocks@.len() as int) {
        Seq::empty()
    } else {
        let r = page_at(s, line, byte, limit);
        let next = line + r.shown.lines;
        let start = next_start(r);
        let all = bytes_before(line_at(s, 0, line), line_at(s, 0, line).len() as int);
        if line < next < lines_in(s.blocks@, s.blocks@.len() as int) {
            page_text(r) + pages_text(s, next, start, limit)
        } else if next == line && byte < start <= all {
            page_text(r) + pages_text(s, line, start, limit)
        } else {
            page_text(r)
        }
    }
}

/// The changed lines from a character of one on, each with its line feed.
pub open spec fn changed_text(s: ReviewSnapshot, line: int, c: int) -> Seq<char>
    decreases lines_in(s.blocks@, s.blocks@.len() as int) - line,
{
    if line < 0 || line >= lines_in(s.blocks@, s.blocks@.len() as int) {
        Seq::empty()
    } else {
        line_at(s, 0, line).skip(c).push('\n') + changed_text(s, line + 1, 0)
    }
}

proof fn lines_then_rest(s: ReviewSnapshot, line: int, c: int, n: int, k: int)
    requires
        0 <= line,
        1 <= k <= n,
        line + n <= lines_in(s.blocks@, s.blocks@.len() as int),
    ensures
        ended(lines_from(s, line, c, n), k) + changed_text(s, line + k, 0) == changed_text(
            s,
            line,
            c,
        ),
    decreases k,
{
    let lines = lines_from(s, line, c, n);
    if k == 1 {
        assert(ended(lines, 0) =~= Seq::empty());
        assert(ended(lines, 1) =~= line_at(s, 0, line).skip(c).push('\n'));
    } else {
        lines_then_rest(s, line, c, n, k - 1);
        let here = line_at(s, 0, line + k - 1);
        assert(lines[k - 1] == here);
        assert(here.skip(0) =~= here);
        assert(ended(lines, k) + changed_text(s, line + k, 0) =~= ended(lines, k - 1) + (
        here.push('\n') + changed_text(s, line + k, 0)));
    }
}

proof fn char_is(t: Seq<char>, e: int, k: int)
    requires
        0 <= k <= e <= t.len(),
    ensures
        char_at_byte(t, bytes_before(t, e) as int, k) == Some(e),
    decreases e - k,
{
    if k < e {
        bytes_grow(t, k, e);
        char_is(t, e, k + 1);
    }
}

/// A page, and what is changed from where the next one starts, is what is
/// changed from where the page starts.
pub proof fn page_then_rest(s: ReviewSnapshot, line: int, byte: int, limit: int)
    requires
        0 <= line < lines_in(s.blocks@, s.blocks@.len() as int),
        char_at_byte(line_at(s, 0, line), byte, 0) is Some,
        1 <= limit,
    ensures
        ({
            let r = page_at(s, line, byte, limit);
            let next = line + r.shown.lines;
            changed_text(s, line, char_at_byte(line_at(s, 0, line), byte, 0)->0) == page_text(r)
                + changed_text(s, next, char_at_byte(line_at(s, 0, next), next_start(r), 0)->0)
        }),
{
    let text = line_at(s, 0, line);
    let c = char_at_byte(text, byte, 0)->0;
    let r = page_at(s, line, byte, limit);
    let next = line + r.shown.lines;
    let lines = shown_lines(r.blocks, r.blocks.len() as int);
    char_found(text, byte, 0);
    pages_lose_nothing(s, line, byte, limit);
    page_lines_fit(s, line, byte, limit);
    match r.shown.next_byte {
        None => {
            let n = r.shown.lines;
            assert(lines == lines_from(s, line, c, n));
            lines_then_rest(s, line, c, n, n);
            assert(page_text(r) == ended(lines, n));
            starts_at_zero(line_at(s, 0, next));
        },
        Some(b) => {
            let e = choose|e: int|
                c < e < text.len() && bytes_before(text, e) == b && lines == seq![
                    #[trigger] text.subrange(c, e),
                ];
            char_is(text, e, 0);
            assert(text.skip(c).push('\n') =~= text.subrange(c, e) + text.skip(e).push('\n'));
            assert(changed_text(s, line, c) =~= text.subrange(c, e) + changed_text(s, line, e));
        },
    }
}

/// Pages put together are the comparison: read from a character of a changed
/// line on, they hold the rest of that line and every changed line behind it,
/// once and in order.
pub proof fn pages_together_are_the_changes(s: ReviewSnapshot, line: int, byte: int, limit: int)
    requires
        0 <= line < lines_in(s.blocks@, s.blocks@.len() as int),
        char_at_byte(line_at(s, 0, line), byte, 0) is Some,
        1 <= limit,
    ensures
        pages_text(s, line, byte, limit) == changed_text(
            s,
            line,
            char_at_byte(line_at(s, 0, line), byte, 0)->0,
        ),
    decreases
            lines_in(s.blocks@, s.blocks@.len() as int) - line,
            bytes_before(line_at(s, 0, line), line_at(s, 0, line).len() as int) - byte,
{
    let total = lines_in(s.blocks@, s.blocks@.len() as int);
    let text = line_at(s, 0, line);
    let r = page_at(s, line, byte, limit);
    let next = line + r.shown.lines;
    char_found(text, byte, 0);
    pages_lose_nothing(s, line, byte, limit);
    cursors_stay_valid(s, line, byte, limit);
    page_lines_fit(s, line, byte, limit);
    page_then_rest(s, line, byte, limit);
    if next > line {
        if next < total {
            pages_together_are_the_changes(s, next, next_start(r), limit);
        } else {
            assert(page_text(r) + changed_text(s, next, 0) =~= page_text(r));
        }
    } else {
        char_found(text, next_start(r), 0);
        bytes_grow(text, char_at_byte(text, next_start(r), 0)->0, text.len() as int);
        pages_together_are_the_changes(s, line, next_start(r), limit);
    }
}

} // verus!
