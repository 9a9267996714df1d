//! Reading a comparison page by page, each page from the cursor that the one
//! before gives out.
use crate::ai::all_pages::{changed_text, ended, page_text, page_then_rest};
use crate::ai::custom_diff::{answered, decoded, page_start, Cursor, ReadDiffArgs};
use crate::ai::diff_pages::{
    are_blocks, boundary_is, changed_line, char_at_byte, char_found, cursors_stay_valid, files_to,
    first_shown, is_block, is_full, is_page, line_at, lines_in, page_at, page_from, page_limit,
    page_lines_fit, pages_lose_nothing, piece_from, shown_lines, shown_push, starts_at_zero,
    with_block, BlockShown, DiffPage, Page, PageBlock, PageCursor, Piece, Shown, MAX_CONTEXT_BYTES,
    MAX_PAGE_BYTES,
};
use crate::fmt::{byte_count, joined};
use crate::native_diff::{ReviewBlock, ReviewPatch, ReviewSnapshot};
use crate::text_index::bytes_before;
use vstd::prelude::*;

verus! {

/// The changed text of a block of a page: its lines with their line feeds, or
/// the part of a line.
pub open spec fn block_text(b: PageBlock) -> Seq<char> {
    if b.partial_line {
        b.content@
    } else {
        b.content@.push('\n')
    }
}

pub open spec fn blocks_text(list: Seq<PageBlock>, k: int) -> Seq<char>
    decreases k,
{
    if k <= 0 || k > list.len() {
        Seq::empty()
    } else {
        blocks_text(list, k - 1) + block_text(list[k - 1])
    }
}

/// The changed text of the pages from the `k`th on.
pub open spec fn read_text(pages: Seq<DiffPage>, k: int) -> Seq<char>
    decreases pages.len() - k,
{
    if k < 0 || k >= pages.len() {
        Seq::empty()
    } else {
        blocks_text(pages[k].blocks@, pages[k].blocks@.len() as int) + read_text(pages, k + 1)
    }
}

/// How many lines the first `k` blocks of a page show to their end.
pub open spec fn whole_lines(list: Seq<PageBlock>, k: int) -> int
    decreases k,
{
    if k <= 0 || k > list.len() {
        0
    } else {
        whole_lines(list, k - 1) + list[k - 1].shown_line_count
    }
}

/// How many bytes the first `k` of some lines take without their line feeds.
pub open spec fn lines_bytes(lines: Seq<Seq<char>>, k: int) -> int
    decreases k,
{
    if k <= 0 || k > lines.len() {
        0
    } else {
        lines_bytes(lines, k - 1) + byte_count(lines[k - 1])
    }
}

/// A request that goes on where a page ends: it names the comparison, and its
/// cursor is read as the one that the page gives out.
pub open spec fn goes_on(args: ReadDiffArgs, s: ReviewSnapshot, before: DiffPage) -> bool {
    &&& args.snapshot_id matches Some(id) && id@ == s.id@
    &&& args.cursor matches Some(text) && before.next_cursor matches Some(next) && decoded(
        text@,
        s.id@,
    ) == Ok::<Cursor, Seq<char>>(next.model())
}

/// Pages that were read one after the other, from the first to the one that
/// gives out no cursor.
pub open spec fn read_through(
    s: ReviewSnapshot,
    sizes: Seq<usize>,
    limit: Option<usize>,
    asked: Seq<ReadDiffArgs>,
    pages: Seq<DiffPage>,
) -> bool {
    &&& asked.len() == pages.len()
    &&& 0 < pages.len()
    &&& asked[0].cursor is None
    &&& forall|i: int|
        0 <= i < pages.len() ==> (#[trigger] asked[i]).limit == limit && answered(
            asked[i],
            s,
            sizes,
            pages[i],
        )
    &&& forall|i: int|
        0 < i < pages.len() ==> goes_on(#[trigger] asked[i], s, pages[i - 1])
    &&& pages.last().next_cursor is None
}

/// A place of a comparison where a page can start.
pub open spec fn sound(s: ReviewSnapshot, c: Cursor) -> bool {
    c.line >= lines_in(s.blocks@, s.blocks@.len() as int) || char_at_byte(
        line_at(s, 0, c.line as int),
        c.byte as int,
        0,
    ) is Some
}

/// The changed text from a place on.
pub open spec fn text_from(s: ReviewSnapshot, c: Cursor) -> Seq<char> {
    if c.line >= lines_in(s.blocks@, s.blocks@.len() as int) {
        Seq::empty()
    } else {
        changed_text(
            s,
            c.line as int,
            char_at_byte(line_at(s, 0, c.line as int), c.byte as int, 0)->0,
        )
    }
}

proof fn bytes_split(t: Seq<char>, c: int, e: int)
    requires
        0 <= c <= e <= t.len(),
    ensures
        bytes_before(t, e) == bytes_before(t, c) + byte_count(t.subrange(c, e)),
    decreases e - c,
{
    let part = t.subrange(c, e);
    if c < e {
        bytes_split(t, c, e - 1);
        let before = t.subrange(c, e - 1);
        assert(part.drop_last() =~= before);
        same_bytes(part, before, before.len() as int);
        assert(part[part.len() - 1] == t[e - 1]);
    }
}

proof fn same_bytes(a: Seq<char>, b: Seq<char>, n: int)
    requires
        0 <= n <= a.len(),
        n <= b.len(),
        forall|i: int| 0 <= i < n ==> a[i] == b[i],
    ensures
        bytes_before(a, n) == bytes_before(b, n),
    decreases n,
{
    if n > 0 {
        same_bytes(a, b, n - 1);
    }
}

proof fn lines_bytes_push(lines: Seq<Seq<char>>, line: Seq<char>)
    ensures
        lines_bytes(lines.push(line), lines.len() as int + 1) == lines_bytes(
            lines,
            lines.len() as int,
        ) + byte_count(line),
{
    lines_bytes_prefix(lines, lines.push(line), lines.len() as int);
}

proof fn lines_bytes_prefix(a: Seq<Seq<char>>, b: Seq<Seq<char>>, k: int)
    requires
        0 <= k <= a.len(),
        k <= b.len(),
        forall|i: int| 0 <= i < k ==> a[i] == b[i],
    ensures
        lines_bytes(a, k) == lines_bytes(b, k),
    decreases k,
{
    if k > 0 {
        lines_bytes_prefix(a, b, k - 1);
    }
}

proof fn lines_bytes_joined(a: Seq<Seq<char>>, b: Seq<Seq<char>>, k: int)
    requires
        0 <= k <= b.len(),
    ensures
        lines_bytes(a + b, a.len() + k) == lines_bytes(a, a.len() as int) + lines_bytes(b, k),
    decreases k,
{
    if k > 0 {
        lines_bytes_joined(a, b, k - 1);
        assert((a + b)[a.len() + k - 1] == b[k - 1]);
    } else {
        lines_bytes_prefix(a, a + b, a.len() as int);
    }
}

/// The counts of a piece are those of its lines.
proof fn piece_counts(
    p: ReviewPatch,
    b: ReviewBlock,
    byte: int,
    limit: int,
    i: int,
    f: Piece,
)
    requires
        f.shown.error is None,
        f.shown.next_byte is None,
        !f.partial,
        0 <= f.shown.lines <= limit,
        0 <= f.shown.bytes <= MAX_PAGE_BYTES,
    ensures
        ({
            let r = piece_from(p, b, byte, limit, i, f);
            let cut = if r.partial {
                1int
            } else {
                0
            };
            r.shown.error is None ==> {
                &&& 0 <= r.shown.lines <= limit
                &&& 0 <= r.shown.bytes <= MAX_PAGE_BYTES
                &&& r.partial == (r.shown.next_byte is Some)
                &&& r.partial ==> r.content.len() > 0
                &&& r.shown.lines - f.shown.lines == r.content.len() - f.content.len() - cut
                &&& r.shown.bytes - f.shown.bytes == lines_bytes(
                    r.content,
                    r.content.len() as int,
                ) - lines_bytes(f.content, f.content.len() as int)
            }
        }),
    decreases b.line_count - i,
{
    if i < 0 || i >= b.line_count || is_full(f.shown, limit) {
    } else {
        let line = changed_line(p, b, i);
        let from = if f.shown.lines == 0 {
            byte
        } else {
            0
        };
        let left = MAX_PAGE_BYTES - f.shown.bytes;
        if let Some(c) = char_at_byte(line, from, 0) {
            char_found(line, from, 0);
            if byte_count(line) - from <= left {
                let n = line.len() as int;
                bytes_split(line, c, n);
                assert(line.subrange(c, n) =~= line.skip(c));
                lines_bytes_push(f.content, line.skip(c));
                piece_counts(
                    p,
                    b,
                    byte,
                    limit,
                    i + 1,
                    Piece {
                        content: f.content.push(line.skip(c)),
                        shown: Shown {
                            lines: f.shown.lines + 1,
                            bytes: f.shown.bytes + (byte_count(line) - from),
                            ..f.shown
                        },
                        ..f
                    },
                );
            } else if f.shown.lines == 0 {
                let end = crate::ai::diff_pages::boundary_to(line, from + left, c);
                boundary_is(line, from + left, c);
                bytes_split(line, c, end);
                lines_bytes_push(f.content, line.subrange(c, end));
            }
        }
    }
}

/// What holds of the blocks of a page so far.
spec fn blocks_counted(g: Page, limit: int) -> bool {
    &&& 0 <= g.shown.lines <= limit
    &&& 0 <= g.shown.bytes <= MAX_PAGE_BYTES
    &&& lines_bytes(
        shown_lines(g.blocks, g.blocks.len() as int),
        shown_lines(g.blocks, g.blocks.len() as int).len() as int,
    ) == g.shown.bytes
    &&& shown_lines(g.blocks, g.blocks.len() as int).len() == g.shown.lines + if g.shown.next_byte
        is Some {
        1int
    } else {
        0
    }
    &&& forall|j: int| 0 <= j < g.blocks.len() ==> (#[trigger] g.blocks[j]).content.len() > 0
    &&& forall|j: int|
        0 <= j < g.blocks.len() ==> (#[trigger] g.blocks[j]).partial == (g.shown.next_byte is Some
            && j == g.blocks.len() - 1)
    &&& g.shown.next_byte is Some ==> g.blocks.len() > 0
}

proof fn page_counts(
    s: ReviewSnapshot,
    offset: int,
    byte: int,
    limit: int,
    k: int,
    changed: int,
    g: Page,
)
    requires
        blocks_counted(g, limit),
        g.shown.error is None,
        g.shown.next_byte is None,
    ensures
        ({
            let r = page_from(s, offset, byte, limit, k, changed, g);
            r.shown.error is None ==> blocks_counted(r, limit)
        }),
    decreases s.blocks@.len() - k,
{
    if k < 0 || k >= s.blocks@.len() {
    } else {
        let b = s.blocks@[k];
        let end = changed + b.line_count;
        if end <= offset {
            page_counts(s, offset, byte, limit, k + 1, end, g);
        } else if !is_full(g.shown, limit) {
            let first = first_shown(offset, changed);
            let none = Piece { content: Seq::empty(), partial: false, shown: g.shown };
            piece_counts(s.patch, b, byte, limit, first, none);
            let f = piece_from(s.patch, b, byte, limit, first, none);
            if f.shown.error is None {
                let h = with_block(g, s.patch, b, k, first, f);
                block_is_counted(g, h, f, limit);
                if first + f.content.len() == b.line_count && !f.partial {
                    page_counts(s, offset, byte, limit, k + 1, end, h);
                }
            }
        }
    }
}

proof fn block_is_counted(g: Page, h: Page, f: Piece, limit: int)
    requires
        blocks_counted(g, limit),
        g.shown.next_byte is None,
        f.shown.error is None,
        0 <= f.shown.lines <= limit,
        0 <= f.shown.bytes <= MAX_PAGE_BYTES,
        f.partial == (f.shown.next_byte is Some),
        f.partial ==> f.content.len() > 0,
        f.shown.lines - g.shown.lines == f.content.len() - if f.partial {
            1int
        } else {
            0
        },
        f.shown.bytes - g.shown.bytes == lines_bytes(f.content, f.content.len() as int),
        h.shown == f.shown,
        if f.content.len() == 0 {
            h.blocks == g.blocks
        } else {
            &&& h.blocks.len() == g.blocks.len() + 1
            &&& h.blocks == g.blocks.push(h.blocks.last())
            &&& h.blocks.last().content == f.content
            &&& h.blocks.last().partial == f.partial
        },
    ensures
        blocks_counted(h, limit),
{
    let before = shown_lines(g.blocks, g.blocks.len() as int);
    if f.content.len() > 0 {
        shown_push(g.blocks, h.blocks.last());
        assert(shown_lines(h.blocks, h.blocks.len() as int) == before + f.content);
        lines_bytes_joined(before, f.content, f.content.len() as int);
    }
}

proof fn page_is_counted(s: ReviewSnapshot, line: int, byte: int, limit: int)
    requires
        0 <= limit,
    ensures
        page_at(s, line, byte, limit).shown.error is None ==> blocks_counted(
            page_at(s, line, byte, limit),
            limit,
        ),
{
    let g = Page {
        shown: Shown { lines: 0, bytes: 0, next_byte: None, error: None },
        context: MAX_CONTEXT_BYTES as int,
        blocks: Seq::empty(),
    };
    page_counts(s, line, byte, limit, 0, 0, g);
}

/// A page that starts behind the last changed line holds none.
proof fn page_behind_the_lines(
    s: ReviewSnapshot,
    offset: int,
    byte: int,
    limit: int,
    k: int,
    g: Page,
)
    requires
        0 <= k <= s.blocks@.len(),
        offset >= lines_in(s.blocks@, s.blocks@.len() as int),
    ensures
        page_from(s, offset, byte, limit, k, lines_in(s.blocks@, k) as int, g) == g,
    decreases s.blocks@.len() - k,
{
    if k < s.blocks@.len() {
        more_lines(s.blocks@, k + 1, s.blocks@.len() as int);
        assert(lines_in(s.blocks@, k + 1) == lines_in(s.blocks@, k) + s.blocks@[k].line_count);
        page_behind_the_lines(s, offset, byte, limit, k + 1, g);
    }
}

proof fn more_lines(blocks: Seq<ReviewBlock>, i: int, k: int)
    requires
        0 <= i <= k <= blocks.len(),
    ensures
        lines_in(blocks, i) <= lines_in(blocks, k),
    decreases k - i,
{
    if i < k {
        more_lines(blocks, i, k - 1);
    }
}

/// Lines with a line feed between them, and one behind, are lines with their
/// line feeds.
proof fn joined_is_ended(lines: Seq<Seq<char>>, k: int)
    requires
        0 < k <= lines.len(),
    ensures
        joined(lines, k, "\n"@).push('\n') == ended(lines, k),
    decreases k,
{
    reveal_strlit("\n");
    if k > 1 {
        joined_is_ended(lines, k - 1);
        assert(joined(lines, k, "\n"@).push('\n') =~= (joined(lines, k - 1, "\n"@).push('\n')
            + lines[k - 1]).push('\n'));
    } else {
        assert(ended(lines, 0) =~= Seq::empty());
        assert(ended(lines, 1) =~= lines[0].push('\n'));
    }
}

proof fn ended_prefix(a: Seq<Seq<char>>, b: Seq<Seq<char>>, k: int)
    requires
        0 <= k <= a.len(),
        k <= b.len(),
        forall|i: int| 0 <= i < k ==> a[i] == b[i],
    ensures
        ended(a, k) == ended(b, k),
    decreases k,
{
    if k > 0 {
        ended_prefix(a, b, k - 1);
    }
}

proof fn ended_joined(a: Seq<Seq<char>>, b: Seq<Seq<char>>, k: int)
    requires
        0 <= k <= b.len(),
    ensures
        ended(a + b, a.len() + k) == ended(a, a.len() as int) + ended(b, k),
    decreases k,
{
    if k > 0 {
        ended_joined(a, b, k - 1);
        assert((a + b)[a.len() + k - 1] == b[k - 1]);
        assert(ended(a + b, a.len() + k) =~= ended(a, a.len() as int) + ended(b, k));
    } else {
        ended_prefix(a, a + b, a.len() as int);
        assert(ended(b, 0) =~= Seq::empty());
        assert(ended(a + b, a.len() as int) =~= ended(a, a.len() as int) + ended(b, 0));
    }
}

/// Blocks without a cut line hold their lines with their line feeds.
proof fn whole_blocks_text(
    list: Seq<PageBlock>,
    models: Seq<BlockShown>,
    s: ReviewSnapshot,
    byte: int,
    k: int,
)
    requires
        are_blocks(list, models, s, byte),
        0 <= k <= list.len(),
        forall|j: int|
            0 <= j < models.len() ==> (#[trigger] models[j]).content.len() > 0 && !models[j].partial,
    ensures
        blocks_text(list, k) == ended(shown_lines(models, k), shown_lines(models, k).len() as int),
        whole_lines(list, k) == shown_lines(models, k).len(),
    decreases k,
{
    if k > 0 {
        whole_blocks_text(list, models, s, byte, k - 1);
        let m = models[k - 1];
        assert(is_block(list[k - 1], m, s, byte));
        joined_is_ended(m.content, m.content.len() as int);
        ended_joined(shown_lines(models, k - 1), m.content, m.content.len() as int);
    } else {
        assert(ended(shown_lines(models, 0), 0) =~= Seq::empty());
    }
}

/// The blocks of a page hold its changed text.
proof fn blocks_hold_the_text(page: DiffPage, s: ReviewSnapshot, cursor: PageCursor, limit: int)
    requires
        page_at(s, cursor.line_offset as int, cursor.byte_offset as int, limit).shown.error is None,
        0 <= limit,
        sound(s, cursor.model()),
        1 <= limit,
        are_blocks(
            page.blocks@,
            page_at(s, cursor.line_offset as int, cursor.byte_offset as int, limit).blocks,
            s,
            cursor.byte_offset as int,
        ),
    ensures
        ({
            let g = page_at(s, cursor.line_offset as int, cursor.byte_offset as int, limit);
            &&& blocks_text(page.blocks@, page.blocks@.len() as int) == page_text(g)
            &&& whole_lines(page.blocks@, page.blocks@.len() as int) == g.shown.lines
        }),
{
    let line = cursor.line_offset as int;
    let byte = cursor.byte_offset as int;
    let g = page_at(s, line, byte, limit);
    let n = page.blocks@.len() as int;
    page_is_counted(s, line, byte, limit);
    if g.shown.next_byte is None {
        whole_blocks_text(page.blocks@, g.blocks, s, byte, n);
    } else {
        let total = lines_in(s.blocks@, s.blocks@.len() as int);
        if line >= total {
            page_behind_the_lines(
                s,
                line,
                byte,
                limit,
                0,
                Page {
                    shown: Shown { lines: 0, bytes: 0, next_byte: None, error: None },
                    context: MAX_CONTEXT_BYTES as int,
                    blocks: Seq::empty(),
                },
            );
        } else {
            pages_lose_nothing(s, line, byte, limit);
            let lines = shown_lines(g.blocks, n);
            assert(lines.len() == 1);
            assert(g.blocks.len() == n);
            let last = g.blocks[n - 1];
            assert(last.content.len() > 0);
            assert(lines == shown_lines(g.blocks, n - 1) + last.content);
            if n > 1 {
                assert(g.blocks[n - 2].content.len() > 0);
                assert(shown_lines(g.blocks, n - 1).len() > 0);
            }
            assert(shown_lines(g.blocks, 0).len() == 0);
            assert(lines =~= last.content);
            assert(is_block(page.blocks@[0], g.blocks[0], s, byte));
            assert(blocks_text(page.blocks@, 0) =~= Seq::empty());
            assert(blocks_text(page.blocks@, 1) =~= lines[0]);
            assert(whole_lines(page.blocks@, 0) == 0);
            assert(whole_lines(page.blocks@, 1) == 0);
        }
    }
}

proof fn files_go_on(sizes: Seq<usize>, count: int, from: int, k: int, bytes: int)
    requires
        0 <= from <= k,
    ensures
        files_to(sizes, count, from, k, bytes) >= k,
        k == from < count ==> files_to(sizes, count, from, k, bytes) > k,
    decreases count - k,
{
    if k < count {
        let size = if k < sizes.len() {
            sizes[k] as int
        } else {
            0
        };
        files_go_on(sizes, count, from, k + 1, bytes + size);
    }
}

/// One page: it holds the text up to where the next one starts, no more than
/// was asked for, and it goes on behind where it started.
proof fn one_page(
    s: ReviewSnapshot,
    sizes: Seq<usize>,
    cursor: PageCursor,
    limit: int,
    page: DiffPage,
)
    requires
        sound(s, cursor.model()),
        1 <= limit,
        page_at(s, cursor.line_offset as int, cursor.byte_offset as int, limit).shown.error is None,
        is_page(
            page,
            s,
            cursor,
            page_at(s, cursor.line_offset as int, cursor.byte_offset as int, limit),
            sizes,
        ),
    ensures
        text_from(s, cursor.model()) == blocks_text(page.blocks@, page.blocks@.len() as int)
            + match page.next_cursor {
            Some(next) => text_from(s, next.model()),
            None => Seq::empty(),
        },
        whole_lines(page.blocks@, page.blocks@.len() as int) <= limit,
        page.next_cursor matches Some(next) ==> sound(s, next.model()) && next.model()
            != cursor.model(),
{
    let line = cursor.line_offset as int;
    let byte = cursor.byte_offset as int;
    let g = page_at(s, line, byte, limit);
    let total = lines_in(s.blocks@, s.blocks@.len() as int);
    let files = s.patch.files@.len() as int;
    let from = cursor.file_offset as int;
    let to = files_to(sizes, files, from, from, 0);
    files_go_on(sizes, files, from, from, 0);
    page_is_counted(s, line, byte, limit);
    blocks_hold_the_text(page, s, cursor, limit);
    let text = blocks_text(page.blocks@, page.blocks@.len() as int);
    if line >= total {
        page_behind_the_lines(
            s,
            line,
            byte,
            limit,
            0,
            Page {
                shown: Shown { lines: 0, bytes: 0, next_byte: None, error: None },
                context: MAX_CONTEXT_BYTES as int,
                blocks: Seq::empty(),
            },
        );
        assert(text =~= Seq::empty());
        assert(text + Seq::<char>::empty() =~= Seq::<char>::empty());
    } else {
        cursors_stay_valid(s, line, byte, limit);
        pages_lose_nothing(s, line, byte, limit);
        page_lines_fit(s, line, byte, limit);
        page_then_rest(s, line, byte, limit);
        if line + g.shown.lines >= total {
            assert(text + Seq::<char>::empty() =~= text);
        }
    }
}

/// The pages from the `k`th on hold the text from where it starts.
proof fn pages_from(
    s: ReviewSnapshot,
    sizes: Seq<usize>,
    limit: Option<usize>,
    asked: Seq<ReadDiffArgs>,
    pages: Seq<DiffPage>,
    k: int,
)
    requires
        read_through(s, sizes, limit, asked, pages),
        0 <= k < pages.len(),
        sound(s, page_start(asked[k], s)->Ok_0),
    ensures
        read_text(pages, k) == text_from(s, page_start(asked[k], s)->Ok_0),
        forall|i: int|
            k <= i < pages.len() ==> whole_lines(
                (#[trigger] pages[i]).blocks@,
                pages[i].blocks@.len() as int,
            ) <= page_limit(limit),
        forall|i: int|
            k <= i < pages.len() ==> ((#[trigger] pages[i]).next_cursor matches Some(next)
                ==> next.model() != page_start(asked[i], s)->Ok_0),
    decreases pages.len() - k,
{
    let c = page_start(asked[k], s)->Ok_0;
    assert(answered(asked[k], s, sizes, pages[k]));
    let g = page_at(s, c.line as int, c.byte as int, page_limit(asked[k].limit));
    let cursor = choose|cursor: PageCursor|
        cursor.model() == c && #[trigger] is_page(pages[k], s, cursor, g, sizes);
    one_page(s, sizes, cursor, page_limit(limit), pages[k]);
    let text = blocks_text(pages[k].blocks@, pages[k].blocks@.len() as int);
    if k + 1 < pages.len() {
        assert(goes_on(asked[k + 1], s, pages[k + 1 - 1]));
        assert(answered(asked[k + 1], s, sizes, pages[k + 1]));
        let next = pages[k].next_cursor->0;
        assert(page_start(asked[k + 1], s)->Ok_0 == next.model());
        pages_from(s, sizes, limit, asked, pages, k + 1);
    } else {
        assert(pages[k] == pages.last());
        assert(read_text(pages, k + 1) =~= Seq::empty());
    }
}

/// Read page by page, from the first to the one that gives out no cursor, a
/// comparison comes out whole: every changed line, once and in order, whatever
/// pages it was cut by. No page shows more lines than were asked for, and no
/// page gives out the cursor that it was asked for with.
pub proof fn pages_read_through_are_the_changes(
    s: ReviewSnapshot,
    sizes: Seq<usize>,
    limit: Option<usize>,
    asked: Seq<ReadDiffArgs>,
    pages: Seq<DiffPage>,
)
    requires
        read_through(s, sizes, limit, asked, pages),
    ensures
        read_text(pages, 0) == changed_text(s, 0, 0),
        forall|i: int|
            0 <= i < pages.len() ==> whole_lines(
                (#[trigger] pages[i]).blocks@,
                pages[i].blocks@.len() as int,
            ) <= page_limit(limit),
        forall|i: int|
            0 <= i < pages.len() ==> ((#[trigger] pages[i]).next_cursor matches Some(next)
                ==> next.model() != page_start(asked[i], s)->Ok_0),
{
    assert(answered(asked[0], s, sizes, pages[0]));
    starts_at_zero(line_at(s, 0, 0));
    pages_from(s, sizes, limit, asked, pages, 0);
}

/// The changed lines of a page take no more bytes than a page may hold, line
/// feeds not counted.
pub proof fn pages_are_small(s: ReviewSnapshot, line: int, byte: int, limit: int)
    requires
        0 <= limit,
        page_at(s, line, byte, limit).shown.error is None,
    ensures
        ({
            let g = page_at(s, line, byte, limit);
            let lines = shown_lines(g.blocks, g.blocks.len() as int);
            &&& lines_bytes(lines, lines.len() as int) == g.shown.bytes
            &&& g.shown.bytes <= MAX_PAGE_BYTES
            &&& g.shown.lines <= limit
        }),
{
    page_is_counted(s, line, byte, limit);
}

} // verus!
