//! A frozen comparison, page by page.
//!
//! A page holds a bounded number of changed lines and of bytes. A line that is
//! larger than a page is cut between characters, and the next page goes on
//! where it was cut.
use crate::diff_review::render::{shown_line, unmarked};
use crate::fmt::{byte_count, byte_len, join, joined, opt_view, text_line, text_line_count, text_lines};
use crate::native_diff::{PatchLine, PatchLineKind, ReviewBlock, ReviewPatch, ReviewSnapshot};
use crate::text::{chars_of, slice_string};
use crate::text_index::{bytes_before, bytes_grow, char_bytes, utf8_width};
use crate::unicode::views;
use vstd::prelude::*;

verus! {

/// How many changed lines a page holds where nothing else is asked for.
pub const DEFAULT_PAGE_SIZE: usize = 100;

/// How many changed lines a page holds at most.
pub const MAX_PAGE_SIZE: usize = 200;

/// How many bytes of changed lines a page holds at most.
pub const MAX_PAGE_BYTES: usize = 32_768;

/// How many bytes of file summaries a page holds, but for its first file.
pub const MAX_FILE_SUMMARY_BYTES: usize = 8_192;

/// How many bytes of unchanged lines a page holds at most, but for the last.
pub const MAX_CONTEXT_BYTES: usize = 4_096;

/// Where a page starts.
#[derive(Debug, PartialEq, Eq)]
pub struct PageCursor {
    pub snapshot_id: String,
    pub line_offset: usize,
    pub byte_offset: usize,
    pub file_offset: usize,
}

/// The changed lines of a block that a page shows.
#[derive(Debug)]
pub struct PageBlock {
    /// The index of the block
    pub block: usize,
    /// The file that the lines are in
    pub path: String,
    /// The first of the block's lines that is shown
    pub block_offset: usize,
    /// How many lines are shown to their end
    pub shown_line_count: usize,
    pub content: String,
    /// The unchanged lines before the block, where its first line is shown
    pub context_before: Option<Vec<String>>,
    /// The unchanged lines behind the block, where its last line is shown
    pub context_after: Option<Vec<String>>,
    /// The last line shown goes on behind this page
    pub partial_line: bool,
    pub fragment_byte_offset: Option<usize>,
}

/// A page of a comparison.
#[derive(Debug)]
pub struct DiffPage {
    pub blocks: Vec<PageBlock>,
    /// The files of the summary: the first, and the one behind the last
    pub files: (usize, usize),
    pub total_changed_lines: usize,
    /// Where the next page starts, if there is one
    pub next_cursor: Option<PageCursor>,
}

/// Why there is no page.
#[derive(Debug, Clone, Copy, PartialEq, Eq, Structural)]
pub enum PageError {
    /// The byte at which the page starts is not at a character of the line.
    OutsideLine,
    /// Not even one character fits.
    CannotSplit,
}

impl PageError {
    pub open spec fn text(self) -> Seq<char> {
        match self {
            PageError::OutsideLine => "byte_offset is outside the requested changed line"@,
            PageError::CannotSplit => "Changed line cannot be split at a UTF-8 boundary"@,
        }
    }

    pub fn message(self) -> (s: &'static str)
        ensures
            s@ == self.text(),
    {
        match self {
            PageError::OutsideLine => "byte_offset is outside the requested changed line",
            PageError::CannotSplit => "Changed line cannot be split at a UTF-8 boundary",
        }
    }
}

/// The character, from the `k`th on, that starts at a byte.
pub open spec fn char_at_byte(t: Seq<char>, byte: int, k: int) -> Option<int>
    decreases t.len() + 1 - k,
{
    if k < 0 || k > t.len() {
        None
    } else if bytes_before(t, k) == byte {
        Some(k)
    } else {
        char_at_byte(t, byte, k + 1)
    }
}

/// The last character boundary, from the `k`th on, that lies at or before a
/// byte.
pub open spec fn boundary_to(t: Seq<char>, byte: int, k: int) -> int
    decreases t.len() - k,
{
    if 0 <= k < t.len() && bytes_before(t, k + 1) <= byte {
        boundary_to(t, byte, k + 1)
    } else {
        k
    }
}

pub(crate) proof fn boundary_is(t: Seq<char>, byte: int, k: int)
    requires
        0 <= k <= t.len(),
        bytes_before(t, k) <= byte,
    ensures
        k <= boundary_to(t, byte, k) <= t.len(),
        bytes_before(t, boundary_to(t, byte, k)) <= byte,
    decreases t.len() - k,
{
    if k < t.len() && bytes_before(t, k + 1) <= byte {
        boundary_is(t, byte, k + 1);
    }
}

fn find_boundary(cs: &Vec<char>, byte: usize, from: usize, start: usize) -> (k: usize)
    requires
        from <= cs.len(),
        start == bytes_before(cs@, from as int),
        start <= byte,
        byte_count(cs@) <= usize::MAX,
    ensures
        k == boundary_to(cs@, byte as int, from as int),
        from <= k <= cs.len(),
{
    let mut k: usize = from;
    let mut at: usize = start;
    while k < cs.len()
        invariant
            from <= k <= cs.len(),
            at == bytes_before(cs@, k as int),
            at <= byte,
            byte_count(cs@) <= usize::MAX,
            boundary_to(cs@, byte as int, k as int) == boundary_to(
                cs@,
                byte as int,
                from as int,
            ),
        decreases cs.len() - k,
    {
        proof {
            bytes_grow(cs@, k + 1, cs.len() as int);
        }
        let next: usize = at + char_bytes(cs[k]);
        if next > byte {
            return k;
        }
        at = next;
        k += 1;
    }
    k
}

fn find_char(cs: &Vec<char>, byte: usize) -> (res: Option<usize>)
    requires
        byte_count(cs@) <= usize::MAX,
    ensures
        match res {
            Some(k) => char_at_byte(cs@, byte as int, 0) == Some(k as int) && k <= cs.len()
                && bytes_before(cs@, k as int) == byte,
            None => char_at_byte(cs@, byte as int, 0) is None,
        },
{
    let mut k: usize = 0;
    let mut at: usize = 0;
    while k < cs.len()
        invariant
            k <= cs.len(),
            at == bytes_before(cs@, k as int),
            byte_count(cs@) <= usize::MAX,
            char_at_byte(cs@, byte as int, k as int) == char_at_byte(cs@, byte as int, 0),
        decreases cs.len() - k,
    {
        if at == byte {
            return Some(k);
        }
        proof {
            bytes_grow(cs@, k + 1, cs.len() as int);
        }
        at += char_bytes(cs[k]);
        k += 1;
    }
    if at == byte {
        Some(k)
    } else {
        proof {
            assert(char_at_byte(cs@, byte as int, k as int + 1) is None);
        }
        None
    }
}

/// What is shown of an unchanged line where so many bytes are left, and how
/// many are left then.
pub open spec fn preview_of(line: Seq<char>, remaining: int) -> (Option<Seq<char>>, int) {
    if remaining < 4 {
        (None, remaining)
    } else {
        let limit = if remaining < 256 {
            remaining
        } else {
            256
        };
        let k = boundary_to(line, limit, 0);
        let preview = if k < line.len() {
            line.take(k).push('…')
        } else {
            line
        };
        let size = byte_count(preview) as int;
        (
            Some(preview),
            if size < remaining {
                remaining - size
            } else {
                0
            },
        )
    }
}

/// What is shown of an unchanged line: all of it, or as much as fits.
pub fn context_preview(line: &str, remaining: &mut usize) -> (res: Option<String>)
    ensures
        (opt_view(res), *final(remaining) as int) == preview_of(line@, *old(remaining) as int),
{
    if *remaining < 4 {
        return None;
    }
    let limit: usize = if *remaining < 256 {
        *remaining
    } else {
        256
    };
    let cs = chars_of(line);
    let size: usize = byte_len(line);
    let k: usize = find_boundary(&cs, limit, 0, 0);
    let mut preview = slice_string(&cs, 0, k);
    if k < cs.len() {
        preview.push('…');
    }
    proof {
        assert(line@.subrange(0, k as int) =~= line@.take(k as int));
        assert(line@.take(line@.len() as int) =~= line@);
    }
    *remaining = remaining.saturating_sub(byte_len(preview.as_str()));
    Some(preview)
}

/// The first `k` unchanged lines as far as bytes are left for them, and how
/// many are left then.
pub open spec fn previews_of(lines: Seq<Seq<char>>, k: int, remaining: int) -> (Seq<Seq<char>>, int)
    decreases k,
{
    if k <= 0 || k > lines.len() {
        (Seq::empty(), remaining)
    } else {
        let (before, left) = previews_of(lines, k - 1, remaining);
        let (preview, left) = preview_of(lines[k - 1], left);
        (
            match preview {
                Some(p) => before.push(p),
                None => before,
            },
            left,
        )
    }
}

fn show_context(lines: &Vec<String>, remaining: &mut usize) -> (out: Vec<String>)
    ensures
        (views(out@), *final(remaining) as int) == previews_of(
            views(lines@),
            lines.len() as int,
            *old(remaining) as int,
        ),
{
    let ghost all = views(lines@);
    let ghost start = *remaining as int;
    let mut out: Vec<String> = Vec::new();
    let mut k: usize = 0;
    proof {
        assert(views(out@) =~= Seq::empty());
    }
    while k < lines.len()
        invariant
            k <= lines.len(),
            all == views(lines@),
            (views(out@), *remaining as int) == previews_of(all, k as int, start),
        decreases lines.len() - k,
    {
        proof {
            assert(all[k as int] == lines@[k as int]@);
        }
        let ghost before = views(out@);
        if let Some(p) = context_preview(lines[k].as_str(), remaining) {
            out.push(p);
            proof {
                assert(views(out@) =~= before.push(p@));
            }
        }
        k += 1;
    }
    out
}

/// A line of the patch without its marker column.
pub open spec fn body_line(t: Seq<char>, i: int) -> Seq<char> {
    unmarked(shown_line(t, i))
}

/// Whether a line of the patch is an unchanged one of a file.
pub open spec fn is_context(lines: Seq<PatchLine>, i: int, file: usize) -> bool {
    0 <= i < lines.len() && lines[i].kind is Context && lines[i].file == Some(file)
}

/// How many unchanged lines, at most `n`, stand directly before a line.
pub open spec fn context_above(lines: Seq<PatchLine>, start: int, file: usize, n: int) -> int
    decreases n,
{
    if n <= 0 || !is_context(lines, start - 1, file) {
        0
    } else {
        1 + context_above(lines, start - 1, file, n - 1)
    }
}

/// How many unchanged lines, at most `n`, stand at and directly behind a line.
pub open spec fn context_below(lines: Seq<PatchLine>, start: int, file: usize, n: int) -> int
    decreases n,
{
    if n <= 0 || !is_context(lines, start, file) {
        0
    } else {
        1 + context_below(lines, start + 1, file, n - 1)
    }
}

/// Lines of the patch without their marker columns.
pub open spec fn body_lines(t: Seq<char>, start: int, n: int) -> Seq<Seq<char>> {
    Seq::new(n as nat, |i: int| body_line(t, start + i))
}

/// The unchanged lines directly before a block.
pub open spec fn lines_above(p: ReviewPatch, b: ReviewBlock) -> Seq<Seq<char>> {
    let n = context_above(p.lines@, b.patch_line_start as int, b.file, 3);
    body_lines(p.text@, b.patch_line_start - n, n)
}

/// The unchanged lines directly behind a block.
pub open spec fn lines_below(p: ReviewPatch, b: ReviewBlock) -> Seq<Seq<char>> {
    let end = b.patch_line_start + b.line_count;
    body_lines(p.text@, end, context_below(p.lines@, end, b.file, 3))
}

/// A changed line of a block.
pub open spec fn changed_line(p: ReviewPatch, b: ReviewBlock, i: int) -> Seq<char> {
    body_line(p.text@, b.patch_line_start + i)
}

/// What a page shows so far.
pub ghost struct Shown {
    /// Lines shown to their end
    pub lines: int,
    pub bytes: int,
    /// Where a line that was cut goes on
    pub next_byte: Option<int>,
    pub error: Option<PageError>,
}

/// What a page shows of a block.
pub ghost struct Piece {
    pub content: Seq<Seq<char>>,
    pub partial: bool,
    pub shown: Shown,
}

/// A page takes no more lines.
pub open spec fn is_full(s: Shown, limit: int) -> bool {
    s.lines == limit || s.bytes == MAX_PAGE_BYTES
}

/// The lines of a block from the `i`th on, as far as they fit.
pub open spec fn piece_from(
    p: ReviewPatch,
    b: ReviewBlock,
    byte_offset: int,
    limit: int,
    i: int,
    f: Piece,
) -> Piece
    decreases b.line_count - i,
{
    if i < 0 || i >= b.line_count || is_full(f.shown, limit) {
        f
    } else {
        let line = changed_line(p, b, i);
        let from = if f.shown.lines == 0 {
            byte_offset
        } else {
            0
        };
        let left = MAX_PAGE_BYTES - f.shown.bytes;
        match char_at_byte(line, from, 0) {
            None => Piece {
                shown: Shown { error: Some(PageError::OutsideLine), ..f.shown },
                ..f
            },
            Some(c) => if byte_count(line) - from <= left {
                piece_from(
                    p,
                    b,
                    byte_offset,
                    limit,
                    i + 1,
                    Piece {
                        content: f.content.push(line.skip(c)),
                        shown: Shown {
                            lines: f.shown.lines + 1,
                            bytes: f.shown.bytes + (byte_count(line) - from),
                            ..f.shown
                        },
                        ..f
                    },
                )
            } else if f.shown.lines > 0 {
                f
            } else {
                let end = boundary_to(line, from + left, c);
                if end == c {
                    Piece {
                        shown: Shown { error: Some(PageError::CannotSplit), ..f.shown },
                        ..f
                    }
                } else {
                    Piece {
                        content: f.content.push(line.subrange(c, end)),
                        partial: true,
                        shown: Shown {
                            bytes: f.shown.bytes + (bytes_before(line, end) - from),
                            next_byte: Some(bytes_before(line, end) as int),
                            ..f.shown
                        },
                    }
                }
            },
        }
    }
}

/// A model of the changed lines of a block that a page shows.
pub ghost struct BlockShown {
    pub block: int,
    pub offset: int,
    pub content: Seq<Seq<char>>,
    pub partial: bool,
    pub before: Option<Seq<Seq<char>>>,
    pub after: Option<Seq<Seq<char>>>,
}

/// A model of a page.
pub ghost struct Page {
    pub shown: Shown,
    /// Bytes left for unchanged lines
    pub context: int,
    pub blocks: Seq<BlockShown>,
}

/// The first line of a block that a page shows.
pub open spec fn first_shown(offset: int, changed: int) -> int {
    if offset > changed {
        offset - changed
    } else {
        0
    }
}

/// A block's lines on a page, with the unchanged lines around them.
pub open spec fn with_block(g: Page, p: ReviewPatch, b: ReviewBlock, k: int, offset: int, f: Piece) -> Page {
    if f.content.len() == 0 {
        Page { shown: f.shown, ..g }
    } else {
        let above = lines_above(p, b);
        let below = lines_below(p, b);
        let whole = offset + f.content.len() == b.line_count && !f.partial;
        let (before, context) = if offset == 0 {
            previews_of(above, above.len() as int, g.context)
        } else {
            (Seq::empty(), g.context)
        };
        let (after, context) = if whole {
            previews_of(below, below.len() as int, context)
        } else {
            (Seq::empty(), context)
        };
        Page {
            shown: f.shown,
            context,
            blocks: g.blocks.push(
                BlockShown {
                    block: k,
                    offset,
                    content: f.content,
                    partial: f.partial,
                    before: if offset == 0 {
                        Some(before)
                    } else {
                        None
                    },
                    after: if whole {
                        Some(after)
                    } else {
                        None
                    },
                },
            ),
        }
    }
}

/// The page with the blocks from the `k`th on, where so many changed lines
/// stand before that block.
pub open spec fn page_from(
    s: ReviewSnapshot,
    offset: int,
    byte_offset: int,
    limit: int,
    k: int,
    changed: int,
    g: Page,
) -> Page
    decreases s.blocks@.len() - k,
{
    if k < 0 || k >= s.blocks@.len() {
        g
    } else {
        let b = s.blocks@[k];
        let end = changed + b.line_count;
        if end <= offset {
            page_from(s, offset, byte_offset, limit, k + 1, end, g)
        } else if is_full(g.shown, limit) {
            g
        } else {
            let first = first_shown(offset, changed);
            let f = piece_from(
                s.patch,
                b,
                byte_offset,
                limit,
                first,
                Piece { content: Seq::empty(), partial: false, shown: g.shown },
            );
            if f.shown.error is Some {
                Page { shown: f.shown, ..g }
            } else {
                let h = with_block(g, s.patch, b, k, first, f);
                if first + f.content.len() == b.line_count && !f.partial {
                    page_from(s, offset, byte_offset, limit, k + 1, end, h)
                } else {
                    h
                }
            }
        }
    }
}

/// The page that starts at a changed line and a byte of it.
pub open spec fn page_at(s: ReviewSnapshot, offset: int, byte_offset: int, limit: int) -> Page {
    page_from(
        s,
        offset,
        byte_offset,
        limit,
        0,
        0,
        Page {
            shown: Shown { lines: 0, bytes: 0, next_byte: None, error: None },
            context: MAX_CONTEXT_BYTES as int,
            blocks: Seq::empty(),
        },
    )
}

/// How many changed lines the first `k` blocks hold.
pub open spec fn lines_in(blocks: Seq<ReviewBlock>, k: int) -> nat
    decreases k,
{
    if k <= 0 || k > blocks.len() {
        0
    } else {
        lines_in(blocks, k - 1) + blocks[k - 1].line_count as nat
    }
}

/// A snapshot whose blocks lie in its patch.
pub open spec fn snapshot_ok(s: ReviewSnapshot) -> bool {
    &&& lines_in(s.blocks@, s.blocks@.len() as int) <= usize::MAX
    &&& s.patch.lines@.len() <= text_line_count(s.patch.text@)
    &&& forall|k: int|
        0 <= k < s.blocks@.len() ==> (#[trigger] s.blocks@[k]).file < s.patch.files@.len()
            && s.blocks@[k].patch_line_start + s.blocks@[k].line_count + 3 <= usize::MAX
}

/// How many changed lines a page holds, as it was asked for.
pub open spec fn page_limit(limit: Option<usize>) -> int {
    match limit {
        None => DEFAULT_PAGE_SIZE as int,
        Some(n) => if n < 1 {
            1
        } else if n > MAX_PAGE_SIZE {
            MAX_PAGE_SIZE as int
        } else {
            n as int
        },
    }
}

/// How many files, from one on, a summary holds, given their sizes.
pub open spec fn files_to(sizes: Seq<usize>, count: int, from: int, k: int, bytes: int) -> int
    decreases count - k,
{
    if k >= count || k < 0 {
        k
    } else {
        let size = if k < sizes.len() {
            sizes[k] as int
        } else {
            0
        };
        if bytes + size > MAX_FILE_SUMMARY_BYTES && k > from {
            k
        } else {
            files_to(sizes, count, from, k + 1, bytes + size)
        }
    }
}

/// The file that the lines of a block are in: of removed lines the old one.
pub open spec fn block_path(p: ReviewPatch, b: ReviewBlock) -> Seq<char> {
    let file = p.files@[b.file as int];
    if b.kind is Removed && file.old_path is Some {
        (file.old_path->0)@
    } else {
        file.path@
    }
}

pub open spec fn list_view(o: Option<Vec<String>>) -> Option<Seq<Seq<char>>> {
    match o {
        Some(v) => Some(views(v@)),
        None => None,
    }
}

/// A block of a page is what its model says.
pub open spec fn is_block(b: PageBlock, m: BlockShown, s: ReviewSnapshot, byte_offset: int) -> bool {
    &&& b.block == m.block
    &&& b.path@ == block_path(s.patch, s.blocks@[m.block])
    &&& b.block_offset == m.offset
    &&& b.content@ == joined(m.content, m.content.len() as int, "\n"@)
    &&& b.shown_line_count == m.content.len() - if m.partial {
        1int
    } else {
        0int
    }
    &&& b.partial_line == m.partial
    &&& b.fragment_byte_offset == if m.partial {
        Some(byte_offset as usize)
    } else {
        None
    }
    &&& list_view(b.context_before) == m.before
    &&& list_view(b.context_after) == m.after
}

pub open spec fn are_blocks(
    list: Seq<PageBlock>,
    models: Seq<BlockShown>,
    s: ReviewSnapshot,
    byte_offset: int,
) -> bool {
    &&& list.len() == models.len()
    &&& forall|i: int|
        0 <= i < list.len() ==> is_block(#[trigger] list[i], models[i], s, byte_offset)
}

/// What a page shows so far.
struct Counts {
    lines: usize,
    bytes: usize,
    next_byte: Option<usize>,
}

impl Counts {
    spec fn model(self) -> Shown {
        Shown {
            lines: self.lines as int,
            bytes: self.bytes as int,
            next_byte: match self.next_byte {
                Some(b) => Some(b as int),
                None => None,
            },
            error: None,
        }
    }

    fn full(&self, limit: usize) -> (res: bool)
        ensures
            res == is_full(self.model(), limit as int),
    {
        self.lines == limit || self.bytes == MAX_PAGE_BYTES
    }
}

fn body_text(lines: &Vec<String>, i: usize, Ghost(t): Ghost<Seq<char>>) -> (s: String)
    requires
        lines.len() == text_line_count(t),
        forall|n: int| 0 <= n < lines.len() ==> (#[trigger] lines@[n])@ == text_line(t, n as nat),
    ensures
        s@ == body_line(t, i as int),
{
    if i >= lines.len() {
        let s = String::new();
        proof {
            assert(s@ =~= body_line(t, i as int));
        }
        return s;
    }
    crate::diff_review::render::strip_marker(lines[i].as_str())
}

fn context_text(
    lines: &Vec<String>,
    start: usize,
    n: usize,
    Ghost(t): Ghost<Seq<char>>,
) -> (out: Vec<String>)
    requires
        lines.len() == text_line_count(t),
        forall|n: int| 0 <= n < lines.len() ==> (#[trigger] lines@[n])@ == text_line(t, n as nat),
        start + n <= usize::MAX,
    ensures
        views(out@) == body_lines(t, start as int, n as int),
{
    let mut out: Vec<String> = Vec::new();
    let mut k: usize = 0;
    while k < n
        invariant
            k <= n,
            start + n <= usize::MAX,
            lines.len() == text_line_count(t),
            forall|n: int|
                0 <= n < lines.len() ==> (#[trigger] lines@[n])@ == text_line(t, n as nat),
            out.len() == k,
            forall|i: int| 0 <= i < k ==> (#[trigger] out@[i])@ == body_line(t, start + i),
        decreases n - k,
    {
        out.push(body_text(lines, start + k, Ghost(t)));
        k += 1;
    }
    proof {
        assert(views(out@) =~= body_lines(t, start as int, n as int));
    }
    out
}

fn context_line(lines: &Vec<PatchLine>, i: usize, file: usize) -> (res: bool)
    ensures
        res == is_context(lines@, i as int, file),
{
    if i >= lines.len() {
        return false;
    }
    let here = match lines[i].file {
        Some(f) => f == file,
        None => false,
    };
    lines[i].kind == PatchLineKind::Context && here
}

fn count_above(lines: &Vec<PatchLine>, start: usize, file: usize) -> (n: usize)
    ensures
        n == context_above(lines@, start as int, file, 3),
        n <= 3,
        n <= start,
{
    let mut n: usize = 0;
    while n < 3 && start > n && context_line(lines, start - n - 1, file)
        invariant
            n <= 3,
            n <= start,
            context_above(lines@, start as int, file, 3) == n + context_above(
                lines@,
                start - n,
                file,
                3 - n,
            ),
        decreases 3 - n,
    {
        n += 1;
    }
    proof {
        assert(context_above(lines@, start - n, file, 3 - n) == 0);
    }
    n
}

fn count_below(lines: &Vec<PatchLine>, start: usize, file: usize) -> (n: usize)
    requires
        start + 3 <= usize::MAX,
    ensures
        n == context_below(lines@, start as int, file, 3),
        n <= 3,
{
    let mut n: usize = 0;
    while n < 3 && context_line(lines, start + n, file)
        invariant
            n <= 3,
            start + 3 <= usize::MAX,
            context_below(lines@, start as int, file, 3) == n + context_below(
                lines@,
                start + n,
                file,
                3 - n,
            ),
        decreases 3 - n,
    {
        n += 1;
    }
    proof {
        assert(context_below(lines@, start + n, file, 3 - n) == 0);
    }
    n
}

#[verifier::rlimit(60)]
fn fill_block(
    lines: &Vec<String>,
    patch: &ReviewPatch,
    b: &ReviewBlock,
    byte_offset: usize,
    limit: usize,
    first: usize,
    counts: &mut Counts,
) -> (res: Result<(Vec<String>, bool), PageError>)
    requires
        lines.len() == text_line_count(patch.text@),
        forall|n: int|
            0 <= n < lines.len() ==> (#[trigger] lines@[n])@ == text_line(patch.text@, n as nat),
        b.patch_line_start + b.line_count + 3 <= usize::MAX,
        old(counts).bytes <= MAX_PAGE_BYTES,
        old(counts).lines <= limit,
    ensures
        ({
            let f = piece_from(
                *patch,
                *b,
                byte_offset as int,
                limit as int,
                first as int,
                Piece { content: Seq::empty(), partial: false, shown: old(counts).model() },
            );
            match res {
                Ok((content, partial)) => views(content@) == f.content && partial == f.partial
                    && final(counts).model() == f.shown && content.len() == f.content.len(),
                Err(e) => f.shown.error == Some(e),
            }
        }),
        final(counts).bytes <= MAX_PAGE_BYTES,
        final(counts).lines <= limit,
        res matches Ok((content, partial)) ==> content.len() + first <= b.line_count || content.len()
            == 0,
        res matches Ok((content, true)) ==> content.len() > 0,
{
    let ghost start = Piece { content: Seq::empty(), partial: false, shown: counts.model() };
    let ghost goal = piece_from(
        *patch,
        *b,
        byte_offset as int,
        limit as int,
        first as int,
        start,
    );
    let mut content: Vec<String> = Vec::new();
    let mut i: usize = first;
    proof {
        assert(views(content@) =~= Seq::empty());
    }
    while i < b.line_count && !counts.full(limit)
        invariant
            lines.len() == text_line_count(patch.text@),
            forall|n: int|
                0 <= n < lines.len() ==> (#[trigger] lines@[n])@ == text_line(
                    patch.text@,
                    n as nat,
                ),
            b.patch_line_start + b.line_count + 3 <= usize::MAX,
            counts.bytes <= MAX_PAGE_BYTES,
            counts.lines <= limit,
            start == (Piece {
                content: Seq::empty(),
                partial: false,
                shown: old(counts).model(),
            }),
            goal == piece_from(
                *patch,
                *b,
                byte_offset as int,
                limit as int,
                first as int,
                start,
            ),
            content.len() == i - first,
            first <= i,
            i <= b.line_count || i == first,
            goal == piece_from(
                *patch,
                *b,
                byte_offset as int,
                limit as int,
                i as int,
                Piece { content: views(content@), partial: false, shown: counts.model() },
            ),
        decreases b.line_count - i,
    {
        let ghost f = Piece { content: views(content@), partial: false, shown: counts.model() };
        let line = body_text(lines, b.patch_line_start + i, Ghost(patch.text@));
        let from: usize = if counts.lines == 0 {
            byte_offset
        } else {
            0
        };
        let cs = chars_of(line.as_str());
        let size: usize = byte_len(line.as_str());
        let left: usize = MAX_PAGE_BYTES - counts.bytes;
        let c: usize = match find_char(&cs, from) {
            Some(c) => c,
            None => {
                return Err(PageError::OutsideLine);
            },
        };
        proof {
            bytes_grow(line@, c as int, line@.len() as int);
        }
        if size - from > left {
            if counts.lines > 0 {
                proof {
                    assert(views(content@).len() == content.len());
                }
                return Ok((content, false));
            }
            let end: usize = find_boundary(&cs, from + left, c, from);
            if end == c {
                return Err(PageError::CannotSplit);
            }
            proof {
                boundary_is(line@, from + left, c as int);
                bytes_grow(line@, c as int, end as int);
            }
            let stop: usize = bytes_to(&cs, end);
            let ghost before = views(content@);
            let part = slice_string(&cs, c, end);
            content.push(part);
            proof {
                assert(views(content@) =~= before.push(part@));
            }
            counts.bytes += stop - from;
            counts.next_byte = Some(stop);
            return Ok((content, true));
        }
        let ghost before = views(content@);
        let part = slice_string(&cs, c, cs.len());
        content.push(part);
        proof {
            assert(part@ =~= line@.skip(c as int));
            assert(views(content@) =~= before.push(part@));
        }
        counts.bytes += size - from;
        counts.lines += 1;
        i += 1;
    }
    proof {
        assert(views(content@).len() == content.len());
    }
    Ok((content, false))
}

fn bytes_to(cs: &Vec<char>, k: usize) -> (n: usize)
    requires
        k <= cs.len(),
        byte_count(cs@) <= usize::MAX,
    ensures
        n == bytes_before(cs@, k as int),
{
    let mut n: usize = 0;
    let mut i: usize = 0;
    while i < k
        invariant
            i <= k <= cs.len(),
            n == bytes_before(cs@, i as int),
            byte_count(cs@) <= usize::MAX,
        decreases k - i,
    {
        proof {
            bytes_grow(cs@, i + 1, cs.len() as int);
        }
        n += char_bytes(cs[i]);
        i += 1;
    }
    n
}

fn path_for(patch: &ReviewPatch, b: &ReviewBlock) -> (s: String)
    requires
        b.file < patch.files.len(),
    ensures
        s@ == block_path(*patch, *b),
{
    let file = &patch.files[b.file];
    if b.kind == PatchLineKind::Removed {
        if let Some(old_path) = &file.old_path {
            return old_path.clone();
        }
    }
    file.path.clone()
}

/// Adds the lines of a block to a page, with the unchanged lines around them.
fn add_block(
    s: &ReviewSnapshot,
    lines: &Vec<String>,
    k: usize,
    first: usize,
    content: &Vec<String>,
    partial: bool,
    byte_offset: usize,
    context: &mut usize,
    blocks: &mut Vec<PageBlock>,
    Ghost(g): Ghost<Page>,
    Ghost(f): Ghost<Piece>,
)
    requires
        snapshot_ok(*s),
        lines.len() == text_line_count(s.patch.text@),
        forall|n: int|
            0 <= n < lines.len() ==> (#[trigger] lines@[n])@ == text_line(s.patch.text@, n as nat),
        k < s.blocks.len(),
        views(content@) == f.content,
        content.len() == f.content.len(),
        partial == f.partial,
        content.len() > 0,
        content.len() + first <= usize::MAX,
        *old(context) == g.context,
        are_blocks(old(blocks)@, g.blocks, *s, byte_offset as int),
    ensures
        ({
            let h = with_block(g, s.patch, s.blocks@[k as int], k as int, first as int, f);
            &&& *final(context) == h.context
            &&& are_blocks(final(blocks)@, h.blocks, *s, byte_offset as int)
        }),
{
    let b = &s.blocks[k];
    let whole = first + content.len() == b.line_count && !partial;
    let ghost h = with_block(g, s.patch, *b, k as int, first as int, f);
    let above: usize = count_above(&s.patch.lines, b.patch_line_start, b.file);
    let end: usize = b.patch_line_start + b.line_count;
    let below: usize = count_below(&s.patch.lines, end, b.file);
    let context_before = if first == 0 {
        let text = context_text(lines, b.patch_line_start - above, above, Ghost(s.patch.text@));
        proof {
            assert(views(text@) == lines_above(s.patch, *b));
        }
        Some(show_context(&text, context))
    } else {
        None
    };
    let context_after = if whole {
        let text = context_text(lines, end, below, Ghost(s.patch.text@));
        proof {
            assert(views(text@) == lines_below(s.patch, *b));
        }
        Some(show_context(&text, context))
    } else {
        None
    };
    let ghost before = blocks@;
    let block = PageBlock {
        block: k,
        path: path_for(&s.patch, b),
        block_offset: first,
        shown_line_count: if partial {
            content.len() - 1
        } else {
            content.len()
        },
        content: join(content, "\n"),
        context_before,
        context_after,
        partial_line: partial,
        fragment_byte_offset: if partial {
            Some(byte_offset)
        } else {
            None
        },
    };
    proof {
        assert(is_block(block, h.blocks.last(), *s, byte_offset as int));
    }
    blocks.push(block);
    proof {
        assert forall|i: int| 0 <= i < blocks.len() implies is_block(
            #[trigger] blocks@[i],
            h.blocks[i],
            *s,
            byte_offset as int,
        ) by {
            if i < before.len() {
                assert(is_block(before[i], g.blocks[i], *s, byte_offset as int));
            }
        }
    }
}

proof fn lines_in_grows(blocks: Seq<ReviewBlock>, i: int, k: int)
    requires
        0 <= i <= k <= blocks.len(),
    ensures
        lines_in(blocks, i) <= lines_in(blocks, k),
    decreases k - i,
{
    if i < k {
        lines_in_grows(blocks, i, k - 1);
    }
}

/// The page of a comparison that starts at a cursor. The sizes are those of
/// the summaries of its files.
#[verifier::rlimit(60)]
pub fn diff_page(
    s: &ReviewSnapshot,
    cursor: &PageCursor,
    asked: Option<usize>,
    sizes: &Vec<usize>,
) -> (res: Result<DiffPage, PageError>)
    requires
        snapshot_ok(*s),
    ensures
        ({
            let g = page_at(
                *s,
                cursor.line_offset as int,
                cursor.byte_offset as int,
                page_limit(asked),
            );
            match res {
                Err(e) => g.shown.error == Some(e),
                Ok(page) => g.shown.error is None && is_page(page, *s, *cursor, g, sizes@),
            }
        }),
{
    let limit: usize = match asked {
        None => DEFAULT_PAGE_SIZE,
        Some(n) => if n < 1 {
            1
        } else if n > MAX_PAGE_SIZE {
            MAX_PAGE_SIZE
        } else {
            n
        },
    };
    let offset: usize = cursor.line_offset;
    let byte_offset: usize = cursor.byte_offset;
    let lines = text_lines(s.patch.text.as_str());
    let mut counts = Counts { lines: 0, bytes: 0, next_byte: None };
    let mut context: usize = MAX_CONTEXT_BYTES;
    let mut blocks: Vec<PageBlock> = Vec::new();
    let ghost mut g = Page {
        shown: counts.model(),
        context: MAX_CONTEXT_BYTES as int,
        blocks: Seq::empty(),
    };
    let ghost goal = page_at(*s, offset as int, byte_offset as int, limit as int);
    let mut changed: usize = 0;
    let mut k: usize = 0;
    let mut open = true;
    while open && k < s.blocks.len()
        invariant
            snapshot_ok(*s),
            lines.len() == text_line_count(s.patch.text@),
            forall|n: int|
                0 <= n < lines.len() ==> (#[trigger] lines@[n])@ == text_line(
                    s.patch.text@,
                    n as nat,
                ),
            k <= s.blocks.len(),
            changed == lines_in(s.blocks@, k as int),
            counts.bytes <= MAX_PAGE_BYTES,
            counts.lines <= limit,
            g.shown == counts.model(),
            g.context == context,
            are_blocks(blocks@, g.blocks, *s, byte_offset as int),
            goal == page_at(*s, offset as int, byte_offset as int, limit as int),
            open ==> goal == page_from(
                *s,
                offset as int,
                byte_offset as int,
                limit as int,
                k as int,
                changed as int,
                g,
            ),
            !open ==> goal == g,
            offset == cursor.line_offset,
            byte_offset == cursor.byte_offset,
            limit == page_limit(asked),
        decreases s.blocks.len() - k + (if open { 1int } else { 0int }),
    {
        let b = &s.blocks[k];
        proof {
            lines_in_grows(s.blocks@, k + 1, s.blocks@.len() as int);
            assert(lines_in(s.blocks@, k + 1) == changed + b.line_count);
        }
        let end: usize = changed + b.line_count;
        if end <= offset {
            changed = end;
            k += 1;
            continue;
        }
        if counts.full(limit) {
            open = false;
            continue;
        }
        let first: usize = offset.saturating_sub(changed);
        let ghost f = piece_from(
            s.patch,
            *b,
            byte_offset as int,
            limit as int,
            first as int,
            Piece { content: Seq::empty(), partial: false, shown: g.shown },
        );
        let (content, partial) = match fill_block(
            &lines,
            &s.patch,
            b,
            byte_offset,
            limit,
            first,
            &mut counts,
        ) {
            Ok(filled) => filled,
            Err(e) => {
                return Err(e);
            },
        };
        if content.len() > 0 {
            add_block(
                s,
                &lines,
                k,
                first,
                &content,
                partial,
                byte_offset,
                &mut context,
                &mut blocks,
                Ghost(g),
                Ghost(f),
            );
        }
        proof {
            g = with_block(g, s.patch, *b, k as int, first as int, f);
        }
        if content.len() == b.line_count - first && !partial {
            changed = end;
            k += 1;
        } else {
            open = false;
        }
    }
    let files: usize = s.patch.files.len();
    let from: usize = cursor.file_offset;
    let to: usize = summary_end(sizes, files, from);
    let total: usize = total_lines(s);
    proof {
        page_lines_fit(*s, offset as int, byte_offset as int, limit as int);
    }
    let next_line: usize = offset + counts.lines;
    let next_cursor = if next_line < total || to < files {
        Some(
            PageCursor {
                snapshot_id: s.id.clone(),
                line_offset: next_line,
                byte_offset: match counts.next_byte {
                    Some(b) => b,
                    None => 0,
                },
                file_offset: to,
            },
        )
    } else {
        None
    };
    Ok(DiffPage { blocks, files: (from, to), total_changed_lines: total, next_cursor })
}

/// A page is what its model says.
pub open spec fn is_page(
    page: DiffPage,
    s: ReviewSnapshot,
    cursor: PageCursor,
    g: Page,
    sizes: Seq<usize>,
) -> bool {
    let total = lines_in(s.blocks@, s.blocks@.len() as int) as int;
    let files = s.patch.files@.len() as int;
    let to = files_to(sizes, files, cursor.file_offset as int, cursor.file_offset as int, 0);
    &&& are_blocks(page.blocks@, g.blocks, s, cursor.byte_offset as int)
    &&& page.files == (cursor.file_offset, to as usize)
    &&& page.total_changed_lines == total
    &&& match page.next_cursor {
        None => cursor.line_offset + g.shown.lines >= total && to >= files,
        Some(next) => (cursor.line_offset + g.shown.lines < total || to < files)
            && next.snapshot_id@ == s.id@ && next.line_offset == cursor.line_offset
            + g.shown.lines && next.byte_offset == match g.shown.next_byte {
            Some(b) => b,
            None => 0,
        } && next.file_offset == to,
    }
}

fn summary_end(sizes: &Vec<usize>, count: usize, from: usize) -> (to: usize)
    ensures
        to == files_to(sizes@, count as int, from as int, from as int, 0),
{
    let mut bytes: usize = 0;
    let ghost mut sum_of: int = 0;
    let mut k: usize = from;
    while k < count
        invariant
            from <= k,
            bytes == capped_sum(sum_of),
            0 <= sum_of,
            files_to(sizes@, count as int, from as int, k as int, sum_of) == files_to(
                sizes@,
                count as int,
                from as int,
                from as int,
                0,
            ),
        decreases count - k,
    {
        let size: usize = if k < sizes.len() {
            sizes[k]
        } else {
            0
        };
        let sum: usize = bytes.saturating_add(size);
        if sum > MAX_FILE_SUMMARY_BYTES && k > from {
            return k;
        }
        bytes = sum;
        k += 1;
        proof {
            sum_of = sum_of + size;
        }
    }
    k
}

spec fn capped_sum(n: int) -> int {
    if n < usize::MAX {
        n
    } else {
        usize::MAX as int
    }
}

/// Whether the blocks of a snapshot lie in its patch.
pub fn check_snapshot(s: &ReviewSnapshot) -> (res: bool)
    ensures
        res == snapshot_ok(*s),
{
    let lines = text_lines(s.patch.text.as_str());
    if s.patch.lines.len() > lines.len() {
        return false;
    }
    let mut n: usize = 0;
    let mut k: usize = 0;
    while k < s.blocks.len()
        invariant
            k <= s.blocks.len(),
            n == lines_in(s.blocks@, k as int),
            s.patch.lines@.len() <= text_line_count(s.patch.text@),
            forall|i: int|
                0 <= i < k ==> (#[trigger] s.blocks@[i]).file < s.patch.files@.len()
                    && s.blocks@[i].patch_line_start + s.blocks@[i].line_count + 3 <= usize::MAX,
        decreases s.blocks.len() - k,
    {
        let b = &s.blocks[k];
        proof {
            lines_in_grows(s.blocks@, k + 1, s.blocks@.len() as int);
        }
        if b.file >= s.patch.files.len() || b.line_count > usize::MAX - n || b.line_count
            > usize::MAX - 3 || b.patch_line_start > usize::MAX - 3 - b.line_count {
            proof {
                assert(lines_in(s.blocks@, k + 1) == n + b.line_count);
                assert(s.blocks@[k as int] == *b);
            }
            return false;
        }
        n += b.line_count;
        k += 1;
    }
    true
}

fn total_lines(s: &ReviewSnapshot) -> (n: usize)
    requires
        snapshot_ok(*s),
    ensures
        n == lines_in(s.blocks@, s.blocks@.len() as int),
{
    let mut n: usize = 0;
    let mut k: usize = 0;
    while k < s.blocks.len()
        invariant
            snapshot_ok(*s),
            k <= s.blocks.len(),
            n == lines_in(s.blocks@, k as int),
        decreases s.blocks.len() - k,
    {
        proof {
            lines_in_grows(s.blocks@, k + 1, s.blocks@.len() as int);
        }
        n += s.blocks[k].line_count;
        k += 1;
    }
    n
}

/// A changed line of the whole comparison, counted from the `k`th block on.
pub open spec fn line_at(s: ReviewSnapshot, k: int, n: int) -> Seq<char>
    decreases s.blocks@.len() - k,
{
    if k < 0 || k >= s.blocks@.len() {
        Seq::empty()
    } else if n < s.blocks@[k].line_count {
        changed_line(s.patch, s.blocks@[k], n)
    } else {
        line_at(s, k + 1, n - s.blocks@[k].line_count)
    }
}

/// All changed lines that the first `k` blocks of a page show.
pub open spec fn shown_lines(blocks: Seq<BlockShown>, k: int) -> Seq<Seq<char>>
    decreases k,
{
    if k <= 0 || k > blocks.len() {
        Seq::empty()
    } else {
        shown_lines(blocks, k - 1) + blocks[k - 1].content
    }
}

/// So many changed lines from one on, the first of them from a character on.
pub open spec fn lines_from(s: ReviewSnapshot, line: int, c: int, n: int) -> Seq<Seq<char>> {
    Seq::new(
        n as nat,
        |i: int|
            if i == 0 {
                line_at(s, 0, line).skip(c)
            } else {
                line_at(s, 0, line + i)
            },
    )
}

/// Where a piece of a block ends.
proof fn piece_bounds(
    p: ReviewPatch,
    b: ReviewBlock,
    byte_offset: int,
    limit: int,
    i: int,
    f: Piece,
)
    requires
        0 <= i <= b.line_count,
        0 <= f.shown.lines,
    ensures
        ({
            let r = piece_from(p, b, byte_offset, limit, i, f);
            &&& 0 <= f.shown.lines <= r.shown.lines
            &&& i + (r.shown.lines - f.shown.lines) <= b.line_count
            &&& r.content.len() == f.content.len() + (r.shown.lines - f.shown.lines) + if r.partial
                && !f.partial {
                1int
            } else {
                0int
            } || f.partial
        }),
    decreases b.line_count - i,
{
    if i < b.line_count && !is_full(f.shown, limit) {
        let line = changed_line(p, b, i);
        let from = if f.shown.lines == 0 {
            byte_offset
        } else {
            0
        };
        let left = MAX_PAGE_BYTES - f.shown.bytes;
        if let Some(c) = char_at_byte(line, from, 0) {
            if byte_count(line) - from <= left {
                let next = Piece {
                    content: f.content.push(line.skip(c)),
                    shown: Shown {
                        lines: f.shown.lines + 1,
                        bytes: f.shown.bytes + (byte_count(line) - from),
                        ..f.shown
                    },
                    ..f
                };
                piece_bounds(p, b, byte_offset, limit, i + 1, next);
            }
        }
    }
}

/// A page shows no more lines than there are.
proof fn page_bounds(
    s: ReviewSnapshot,
    offset: int,
    byte_offset: int,
    limit: int,
    k: int,
    changed: int,
    g: Page,
)
    requires
        0 <= k <= s.blocks@.len(),
        0 <= offset,
        changed == lines_in(s.blocks@, k),
        0 <= g.shown.lines,
        (changed <= offset && g.shown.lines == 0) || changed == offset + g.shown.lines,
    ensures
        ({
            let r = page_from(s, offset, byte_offset, limit, k, changed, g);
            let total = lines_in(s.blocks@, s.blocks@.len() as int);
            0 <= r.shown.lines && (r.shown.lines == 0 || offset + r.shown.lines <= total)
        }),
    decreases s.blocks@.len() - k,
{
    lines_in_grows(s.blocks@, k, s.blocks@.len() as int);
    if k < s.blocks@.len() {
        let b = s.blocks@[k];
        let end = changed + b.line_count;
        lines_in_grows(s.blocks@, k + 1, s.blocks@.len() as int);
        assert(lines_in(s.blocks@, k + 1) == end);
        if end <= offset {
            page_bounds(s, offset, byte_offset, limit, k + 1, end, g);
        } else if !is_full(g.shown, limit) {
            let first = first_shown(offset, changed);
            let start = Piece { content: Seq::empty(), partial: false, shown: g.shown };
            piece_bounds(s.patch, b, byte_offset, limit, first, start);
            let f = piece_from(s.patch, b, byte_offset, limit, first, start);
            if f.shown.error is None && first + f.content.len() == b.line_count && !f.partial {
                let h = with_block(g, s.patch, b, k, first, f);
                page_bounds(s, offset, byte_offset, limit, k + 1, end, h);
            }
        }
    }
}

pub(crate) proof fn page_lines_fit(s: ReviewSnapshot, offset: int, byte_offset: int, limit: int)
    requires
        0 <= offset,
    ensures
        ({
            let r = page_at(s, offset, byte_offset, limit);
            let total = lines_in(s.blocks@, s.blocks@.len() as int);
            0 <= r.shown.lines && (r.shown.lines == 0 || offset + r.shown.lines <= total)
        }),
{
    page_bounds(
        s,
        offset,
        byte_offset,
        limit,
        0,
        0,
        Page {
            shown: Shown { lines: 0, bytes: 0, next_byte: None, error: None },
            context: MAX_CONTEXT_BYTES as int,
            blocks: Seq::empty(),
        },
    );
}

proof fn block_line(s: ReviewSnapshot, j: int, k: int, i: int)
    requires
        0 <= j <= k < s.blocks@.len(),
        0 <= i < s.blocks@[k].line_count,
    ensures
        line_at(s, j, lines_in(s.blocks@, k) - lines_in(s.blocks@, j) + i) == changed_line(
            s.patch,
            s.blocks@[k],
            i,
        ),
    decreases k - j,
{
    if j < k {
        lines_in_grows(s.blocks@, j + 1, k);
        block_line(s, j + 1, k, i);
        assert(lines_in(s.blocks@, j + 1) == lines_in(s.blocks@, j) + s.blocks@[j].line_count);
    }
}

pub(crate) proof fn starts_at_zero(t: Seq<char>)
    ensures
        char_at_byte(t, 0, 0) == Some(0int),
{
    assert(bytes_before(t, 0) == 0);
}

pub(crate) proof fn char_found(t: Seq<char>, byte: int, k: int)
    requires
        char_at_byte(t, byte, k) is Some,
        0 <= k,
    ensures
        k <= char_at_byte(t, byte, k)->0 <= t.len(),
        bytes_before(t, char_at_byte(t, byte, k)->0) == byte,
    decreases t.len() + 1 - k,
{
    if k <= t.len() && bytes_before(t, k) != byte {
        char_found(t, byte, k + 1);
    }
}

/// What a page has shown of a comparison from a line and a character on: whole
/// lines, or a part of the one line.
pub open spec fn covers(s: ReviewSnapshot, line: int, c: int, shown: Shown, pieces: Seq<Seq<char>>) -> bool {
    match shown.next_byte {
        None => pieces == lines_from(s, line, c, shown.lines),
        Some(byte) => shown.lines == 0 && exists|e: int|
            c < e < line_at(s, 0, line).len() && bytes_before(line_at(s, 0, line), e) == byte
                && pieces == seq![#[trigger] line_at(s, 0, line).subrange(c, e)],
    }
}

pub open spec fn in_bounds(shown: Shown, limit: int) -> bool {
    &&& shown.error is None
    &&& 0 <= shown.lines <= limit
    &&& 0 <= shown.bytes <= MAX_PAGE_BYTES
    &&& (shown.lines == 0 && shown.next_byte is None ==> shown.bytes == 0)
}

proof fn piece_covers(
    s: ReviewSnapshot,
    line: int,
    c: int,
    byte: int,
    limit: int,
    k: int,
    i: int,
    f: Piece,
    before: Seq<Seq<char>>,
)
    requires
        0 <= k < s.blocks@.len(),
        0 <= line,
        0 <= i <= s.blocks@[k].line_count,
        lines_in(s.blocks@, k) + i == line + f.shown.lines,
        char_at_byte(line_at(s, 0, line), byte, 0) == Some(c),
        in_bounds(f.shown, limit),
        f.shown.next_byte is None,
        !f.partial,
        before + f.content == lines_from(s, line, c, f.shown.lines),
    ensures
        ({
            let r = piece_from(s.patch, s.blocks@[k], byte, limit, i, f);
            &&& in_bounds(r.shown, limit)
            &&& r.partial == (r.shown.next_byte is Some)
            &&& covers(s, line, c, r.shown, before + r.content)
            &&& i < s.blocks@[k].line_count && !is_full(f.shown, limit) ==> r.shown.lines > 0
                || r.partial
            &&& r.partial ==> r.content.len() > 0
        }),
    decreases s.blocks@[k].line_count - i,
{
    let b = s.blocks@[k];
    if i < b.line_count && !is_full(f.shown, limit) {
        block_line(s, 0, k, i);
        let text = changed_line(s.patch, b, i);
        assert(text == line_at(s, 0, line + f.shown.lines));
        let from = if f.shown.lines == 0 {
            byte
        } else {
            0
        };
        starts_at_zero(text);
        let left = MAX_PAGE_BYTES - f.shown.bytes;
        let at = char_at_byte(text, from, 0)->0;
        char_found(text, from, 0);
        bytes_grow(text, at, text.len() as int);
        if byte_count(text) - from <= left {
            let next = Piece {
                content: f.content.push(text.skip(at)),
                shown: Shown {
                    lines: f.shown.lines + 1,
                    bytes: f.shown.bytes + (byte_count(text) - from),
                    ..f.shown
                },
                ..f
            };
            assert(text.skip(0) =~= text);
            assert(before + next.content =~= lines_from(s, line, c, next.shown.lines)) by {
                assert(before + next.content =~= (before + f.content).push(text.skip(at)));
            }
            piece_covers(s, line, c, byte, limit, k, i + 1, next, before);
            piece_bounds(s.patch, b, byte, limit, i + 1, next);
        } else if f.shown.lines == 0 {
            let end = boundary_to(text, from + left, at);
            assert(at < text.len()) by {
                if at == text.len() {
                    assert(bytes_before(text, at) == byte_count(text));
                }
            }
            assert(bytes_before(text, at + 1) == from + utf8_width(text[at]));
            assert(end > at) by {
                boundary_is(text, from + left, at + 1);
            }
            boundary_is(text, from + left, at);
            assert(end < text.len()) by {
                if end == text.len() {
                    assert(bytes_before(text, end) == byte_count(text));
                }
            }
            bytes_grow(text, at, end);
            let r = piece_from(s.patch, b, byte, limit, i, f);
            assert(f.content =~= Seq::empty() && before =~= Seq::empty()) by {
                assert((before + f.content).len() == 0);
            }
            assert(before + r.content =~= seq![text.subrange(at, end)]);
        }
    }
}

pub(crate) proof fn shown_push(blocks: Seq<BlockShown>, b: BlockShown)
    ensures
        shown_lines(blocks.push(b), blocks.len() as int + 1) == shown_lines(blocks, blocks.len() as int)
            + b.content,
{
    shown_prefix(blocks, blocks.push(b), blocks.len() as int);
}

proof fn shown_prefix(a: Seq<BlockShown>, b: Seq<BlockShown>, k: int)
    requires
        0 <= k <= a.len(),
        k <= b.len(),
        forall|i: int| 0 <= i < k ==> a[i] == b[i],
    ensures
        shown_lines(a, k) == shown_lines(b, k),
    decreases k,
{
    if k > 0 {
        shown_prefix(a, b, k - 1);
    }
}

proof fn page_covers(
    s: ReviewSnapshot,
    line: int,
    c: int,
    byte: int,
    limit: int,
    k: int,
    changed: int,
    g: Page,
)
    requires
        0 <= k <= s.blocks@.len(),
        changed == lines_in(s.blocks@, k),
        0 <= line < lines_in(s.blocks@, s.blocks@.len() as int),
        1 <= limit,
        char_at_byte(line_at(s, 0, line), byte, 0) == Some(c),
        in_bounds(g.shown, limit),
        g.shown.next_byte is None,
        (changed <= line && g.shown.lines == 0) || changed == line + g.shown.lines,
        shown_lines(g.blocks, g.blocks.len() as int) == lines_from(s, line, c, g.shown.lines),
    ensures
        ({
            let r = page_from(s, line, byte, limit, k, changed, g);
            &&& r.shown.error is None
            &&& r.shown.lines > 0 || r.shown.next_byte is Some
            &&& covers(s, line, c, r.shown, shown_lines(r.blocks, r.blocks.len() as int))
        }),
    decreases s.blocks@.len() - k,
{
    if k < s.blocks@.len() {
        let b = s.blocks@[k];
        let end = changed + b.line_count;
        assert(lines_in(s.blocks@, k + 1) == end);
        if end <= line {
            page_covers(s, line, c, byte, limit, k + 1, end, g);
        } else if !is_full(g.shown, limit) {
            let first = first_shown(line, changed);
            let start = Piece { content: Seq::empty(), partial: false, shown: g.shown };
            let before = shown_lines(g.blocks, g.blocks.len() as int);
            assert(before + start.content =~= before);
            piece_covers(s, line, c, byte, limit, k, first, start, before);
            piece_bounds(s.patch, b, byte, limit, first, start);
            let f = piece_from(s.patch, b, byte, limit, first, start);
            let h = with_block(g, s.patch, b, k, first, f);
            if f.content.len() > 0 {
                shown_push(g.blocks, h.blocks.last());
                assert(h.blocks =~= g.blocks.push(h.blocks.last()));
                assert(shown_lines(h.blocks, h.blocks.len() as int) == before + f.content);
            } else {
                assert(before + f.content =~= before);
            }
            if first + f.content.len() == b.line_count && !f.partial {
                page_covers(s, line, c, byte, limit, k + 1, end, h);
            }
        }
    }
}

/// Pages lose nothing. A page that starts at a character of a changed line
/// shows that line from there on and the lines behind it, whole and in order;
/// or, where that line alone is larger than a page, a part of it that is not
/// empty. The next page starts directly behind what was shown. There is always
/// such a page.
pub proof fn pages_lose_nothing(s: ReviewSnapshot, line: int, byte: int, limit: int)
    requires
        0 <= line < lines_in(s.blocks@, s.blocks@.len() as int),
        char_at_byte(line_at(s, 0, line), byte, 0) is Some,
        1 <= limit,
    ensures
        ({
            let r = page_at(s, line, byte, limit);
            let c = char_at_byte(line_at(s, 0, line), byte, 0)->0;
            &&& r.shown.error is None
            &&& r.shown.lines > 0 || r.shown.next_byte is Some
            &&& covers(s, line, c, r.shown, shown_lines(r.blocks, r.blocks.len() as int))
        }),
{
    let c = char_at_byte(line_at(s, 0, line), byte, 0)->0;
    let g = Page {
        shown: Shown { lines: 0, bytes: 0, next_byte: None, error: None },
        context: MAX_CONTEXT_BYTES as int,
        blocks: Seq::empty(),
    };
    assert(shown_lines(g.blocks, 0) =~= lines_from(s, line, c, 0));
    page_covers(s, line, c, byte, limit, 0, 0, g);
}

/// The first page, and each page behind a page, starts at a character of a
/// line: no cursor that a page gives out is refused.
pub proof fn cursors_stay_valid(s: ReviewSnapshot, line: int, byte: int, limit: int)
    requires
        0 <= line < lines_in(s.blocks@, s.blocks@.len() as int),
        char_at_byte(line_at(s, 0, line), byte, 0) is Some,
        1 <= limit,
    ensures
        ({
            let r = page_at(s, line, byte, limit);
            let next = line + r.shown.lines;
            let start = match r.shown.next_byte {
                Some(b) => b,
                None => 0,
            };
            &&& char_at_byte(line_at(s, 0, next), start, 0) is Some
            &&& next > line || (next == line && start > byte)
        }),
{
    pages_lose_nothing(s, line, byte, limit);
    let r = page_at(s, line, byte, limit);
    let c = char_at_byte(line_at(s, 0, line), byte, 0)->0;
    let text = line_at(s, 0, line);
    char_found(text, byte, 0);
    starts_at_zero(line_at(s, 0, line + r.shown.lines));
    if let Some(b) = r.shown.next_byte {
        let e = choose|e: int|
            c < e < text.len() && bytes_before(text, e) == b && shown_lines(
                r.blocks,
                r.blocks.len() as int,
            ) == seq![#[trigger] text.subrange(c, e)];
        boundary_found(text, e, 0);
        bytes_grow(text, c, e);
    }
}

pub(crate) proof fn boundary_found(t: Seq<char>, e: int, k: int)
    requires
        0 <= k <= e <= t.len(),
    ensures
        char_at_byte(t, bytes_before(t, e) as int, k) is Some,
    decreases e - k,
{
    if k < e && bytes_before(t, k) != bytes_before(t, e) {
        boundary_found(t, e, k + 1);
    }
}

} // verus!
