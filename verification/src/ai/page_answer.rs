//! A page of a comparison as an agent is answered with it.
use crate::ai::cursor_json::cursor_bytes;
use crate::ai::custom_diff::{
    answered, base64_of, decoded, page_start, read_diff, Cursor, ReadDiffArgs,
};
use crate::ai::diff_pages::{
    first_shown, is_block, is_full, is_page, page_at, page_from, page_limit, piece_from,
    snapshot_ok, with_block, DiffPage, Page, PageBlock, PageCursor, Piece, Shown,
    MAX_CONTEXT_BYTES,
};
use crate::ai::tools::{no_fields, number, object, put, text};
use crate::fmt::{decimal, digits};
use crate::json::{Js, Json};
use crate::native_diff::{additions_of, deletions_of, PatchLineKind, ReviewSnapshot};
use vstd::prelude::*;

verus! {

/// The name under which a kind of line is written.
pub open spec fn kind_text(kind: PatchLineKind) -> Seq<char> {
    match kind {
        PatchLineKind::FileHeader => "file_header"@,
        PatchLineKind::HunkHeader => "hunk_header"@,
        PatchLineKind::Context => "context"@,
        PatchLineKind::Added => "added"@,
        PatchLineKind::Removed => "removed"@,
        PatchLineKind::Meta => "meta"@,
    }
}

/// The name under which a kind of line is written.
pub fn kind_name(kind: PatchLineKind) -> (s: &'static str)
    ensures
        s@ == kind_text(kind),
{
    match kind {
        PatchLineKind::FileHeader => "file_header",
        PatchLineKind::HunkHeader => "hunk_header",
        PatchLineKind::Context => "context",
        PatchLineKind::Added => "added",
        PatchLineKind::Removed => "removed",
        PatchLineKind::Meta => "meta",
    }
}

pub open spec fn count_js(n: usize) -> Js {
    Js::Number(digits(n as nat))
}

pub open spec fn texts_js(list: Option<Vec<String>>) -> Js {
    match list {
        Some(list) => Js::List(Seq::new(list@.len(), |i: int| Js::Text(list@[i]@))),
        None => Js::Null,
    }
}

pub open spec fn text_js(t: Option<String>) -> Js {
    match t {
        Some(t) => Js::Text(t@),
        None => Js::Null,
    }
}

/// A block of a page.
pub open spec fn block_js(b: PageBlock, s: ReviewSnapshot) -> Js {
    let block = s.blocks@[b.block as int];
    Js::Object(
        seq![
            ("block_id"@, Js::Text(block.id@)),
            ("kind"@, Js::Text(kind_text(block.kind))),
            ("path"@, Js::Text(b.path@)),
            ("start_line"@, count_js(block.start_line)),
            ("line_count"@, count_js(block.line_count)),
            ("block_offset"@, count_js(b.block_offset)),
            ("shown_line_count"@, count_js(b.shown_line_count)),
            ("content"@, Js::Text(b.content@)),
            ("context_before"@, texts_js(b.context_before)),
            ("context_after"@, texts_js(b.context_after)),
            ("partial_line"@, Js::Bool(b.partial_line)),
            (
                "fragment_byte_offset"@,
                match b.fragment_byte_offset {
                    Some(n) => count_js(n),
                    None => Js::Null,
                },
            ),
        ],
    )
}

/// The cursor that a page gives out, as it is written.
pub open spec fn cursor_js(c: Option<PageCursor>) -> Js {
    match c {
        Some(c) => Js::Text(
            base64_of(
                cursor_bytes(c.snapshot_id@, c.line_offset, c.byte_offset, c.file_offset),
            ),
        ),
        None => Js::Null,
    }
}

/// The values of some files from one on.
pub open spec fn files_js(all: Seq<Json>, from: int, to: int) -> Js {
    let end = if to < all.len() {
        to
    } else {
        all.len() as int
    };
    Js::List(
        if from < end {
            Seq::new((end - from) as nat, |i: int| all[from + i].model())
        } else {
            Seq::empty()
        },
    )
}

/// A page, with what its comparison is made of.
pub open spec fn page_js(page: DiffPage, s: ReviewSnapshot, base: Json, files: Seq<Json>) -> Js {
    Js::Object(
        seq![
            ("snapshot_id"@, Js::Text(s.id@)),
            ("root"@, Js::Text(s.patch.root@)),
            ("base"@, base.model()),
            ("head"@, Js::Text(s.patch.head@)),
            ("merge_base"@, text_js(s.patch.merge_base)),
            ("comparison_base_oid"@, text_js(s.patch.comparison_base_oid)),
            ("file_count"@, Js::Number(digits(s.patch.files@.len()))),
            ("files"@, files_js(files, page.files.0 as int, page.files.1 as int)),
            (
                "additions"@,
                Js::Number(digits(additions_of(s.patch.files@, s.patch.files@.len() as int))),
            ),
            (
                "deletions"@,
                Js::Number(digits(deletions_of(s.patch.files@, s.patch.files@.len() as int))),
            ),
            ("block_count"@, Js::Number(digits(s.blocks@.len()))),
            ("total_changed_lines"@, count_js(page.total_changed_lines)),
            ("next_cursor"@, cursor_js(page.next_cursor)),
            (
                "blocks"@,
                Js::List(Seq::new(page.blocks@.len(), |i: int| block_js(page.blocks@[i], s))),
            ),
        ],
    )
}

fn count(n: usize) -> (v: Json)
    ensures
        v.model() == count_js(n),
{
    number(decimal(n as u64).as_str())
}

fn optional_text(t: &Option<String>) -> (v: Json)
    ensures
        v.model() == text_js(*t),
{
    match t {
        Some(t) => text(t.as_str()),
        None => Json::Null,
    }
}

fn optional_texts(list: &Option<Vec<String>>) -> (v: Json)
    ensures
        v.model() == texts_js(*list),
{
    let list = match list {
        Some(list) => list,
        None => {
            return Json::Null;
        },
    };
    let mut items: Vec<Json> = Vec::new();
    let mut k: usize = 0;
    while k < list.len()
        invariant
            k <= list.len(),
            items.len() == k,
            forall|i: int| 0 <= i < k ==> (#[trigger] items@[i]).model() == Js::Text(list@[i]@),
        decreases list.len() - k,
    {
        items.push(text(list[k].as_str()));
        k += 1;
    }
    let v = Json::List(items);
    proof {
        assert(v.model()->List_0 =~= Seq::new(list@.len(), |i: int| Js::Text(list@[i]@)));
    }
    v
}

fn block_value(b: &PageBlock, s: &ReviewSnapshot) -> (v: Json)
    requires
        b.block < s.blocks.len(),
    ensures
        v.model() == block_js(*b, *s),
{
    let block = &s.blocks[b.block];
    let mut fields = no_fields();
    put(&mut fields, "block_id", text(block.id.as_str()));
    put(&mut fields, "kind", text(kind_name(block.kind)));
    put(&mut fields, "path", text(b.path.as_str()));
    put(&mut fields, "start_line", count(block.start_line));
    put(&mut fields, "line_count", count(block.line_count));
    put(&mut fields, "block_offset", count(b.block_offset));
    put(&mut fields, "shown_line_count", count(b.shown_line_count));
    put(&mut fields, "content", text(b.content.as_str()));
    put(&mut fields, "context_before", optional_texts(&b.context_before));
    put(&mut fields, "context_after", optional_texts(&b.context_after));
    put(&mut fields, "partial_line", Json::Bool(b.partial_line));
    let offset = match b.fragment_byte_offset {
        Some(n) => count(n),
        None => Json::Null,
    };
    put(&mut fields, "fragment_byte_offset", offset);
    let v = object(fields);
    proof {
        assert(Json::Bool(b.partial_line).model() == Js::Bool(b.partial_line));
        assert(v.model()->Object_0 =~= block_js(*b, *s)->Object_0);
    }
    v
}

fn block_values(page: &DiffPage, s: &ReviewSnapshot) -> (v: Json)
    requires
        forall|i: int|
            0 <= i < page.blocks@.len() ==> (#[trigger] page.blocks@[i]).block < s.blocks.len(),
    ensures
        v.model() == Js::List(
            Seq::new(page.blocks@.len(), |i: int| block_js(page.blocks@[i], *s)),
        ),
{
    let mut items: Vec<Json> = Vec::new();
    let mut k: usize = 0;
    while k < page.blocks.len()
        invariant
            k <= page.blocks.len(),
            items.len() == k,
            forall|i: int|
                0 <= i < page.blocks@.len() ==> (#[trigger] page.blocks@[i]).block
                    < s.blocks.len(),
            forall|i: int|
                0 <= i < k ==> (#[trigger] items@[i]).model() == block_js(page.blocks@[i], *s),
        decreases page.blocks.len() - k,
    {
        items.push(block_value(&page.blocks[k], s));
        k += 1;
    }
    let v = Json::List(items);
    proof {
        assert(v.model()->List_0 =~= Seq::new(
            page.blocks@.len(),
            |i: int| block_js(page.blocks@[i], *s),
        ));
    }
    v
}

fn file_values(all: &Vec<Json>, from: usize, to: usize) -> (v: Json)
    ensures
        v.model() == files_js(all@, from as int, to as int),
{
    let end: usize = if to < all.len() {
        to
    } else {
        all.len()
    };
    let mut items: Vec<Json> = Vec::new();
    let mut k: usize = from;
    while k < end
        invariant
            from <= k,
            k <= end || k == from,
            end <= all.len(),
            items.len() == k - from,
            forall|i: int|
                0 <= i < k - from ==> (#[trigger] items@[i]).model() == all@[from + i].model(),
        decreases end - k,
    {
        items.push(all[k].copy());
        k += 1;
    }
    let v = Json::List(items);
    proof {
        assert(v.model()->List_0 =~= files_js(all@, from as int, to as int)->List_0);
    }
    v
}

/// A page as an agent is answered with it. The values of the base and of the
/// files are handed in.
pub fn page_answer(page: &DiffPage, s: &ReviewSnapshot, base: Json, files: &Vec<Json>) -> (v: Json)
    requires
        forall|i: int|
            0 <= i < page.blocks@.len() ==> (#[trigger] page.blocks@[i]).block < s.blocks.len(),
    ensures
        v.model() == page_js(*page, *s, base, files@),
        page.next_cursor matches Some(next) ==> (cursor_js(page.next_cursor) matches Js::Text(t)
            && decoded(t, next.snapshot_id@) == Ok::<Cursor, Seq<char>>(next.model())),
{
    let mut fields = no_fields();
    put(&mut fields, "snapshot_id", text(s.id.as_str()));
    put(&mut fields, "root", text(s.patch.root.as_str()));
    put(&mut fields, "base", base);
    put(&mut fields, "head", text(s.patch.head.as_str()));
    put(&mut fields, "merge_base", optional_text(&s.patch.merge_base));
    put(&mut fields, "comparison_base_oid", optional_text(&s.patch.comparison_base_oid));
    put(&mut fields, "file_count", count(s.patch.files.len()));
    put(&mut fields, "files", file_values(files, page.files.0, page.files.1));
    put(&mut fields, "additions", count(s.patch.additions()));
    put(&mut fields, "deletions", count(s.patch.deletions()));
    put(&mut fields, "block_count", count(s.blocks.len()));
    put(&mut fields, "total_changed_lines", count(page.total_changed_lines));
    let next = match &page.next_cursor {
        Some(cursor) => text(cursor.encode().as_str()),
        None => Json::Null,
    };
    put(&mut fields, "next_cursor", next);
    put(&mut fields, "blocks", block_values(page, s));
    let v = object(fields);
    proof {
        assert(v.model()->Object_0 =~= page_js(*page, *s, base, files@)->Object_0);
    }
    v
}

/// The blocks of a page are blocks of its comparison.
proof fn page_blocks_exist(
    s: ReviewSnapshot,
    offset: int,
    byte: int,
    limit: int,
    k: int,
    changed: int,
    g: Page,
)
    requires
        0 <= k,
        forall|j: int|
            0 <= j < g.blocks.len() ==> 0 <= (#[trigger] g.blocks[j]).block < s.blocks@.len(),
    ensures
        ({
            let r = page_from(s, offset, byte, limit, k, changed, g);
            forall|j: int|
                0 <= j < r.blocks.len() ==> 0 <= (#[trigger] r.blocks[j]).block < s.blocks@.len()
        }),
    decreases s.blocks@.len() - k,
{
    if k < s.blocks@.len() {
        let b = s.blocks@[k];
        let end = changed + b.line_count;
        if end <= offset {
            page_blocks_exist(s, offset, byte, limit, k + 1, end, g);
        } else if !is_full(g.shown, limit) {
            let first = first_shown(offset, changed);
            let none = Piece { content: Seq::empty(), partial: false, shown: g.shown };
            let f = piece_from(s.patch, b, byte, limit, first, none);
            let h = with_block(g, s.patch, b, k, first, f);
            if f.shown.error is None && first + f.content.len() == b.line_count && !f.partial {
                page_blocks_exist(s, offset, byte, limit, k + 1, end, h);
            }
        }
    }
}

/// The answer to a request for a page.
pub open spec fn is_answer(
    res: Result<Json, String>,
    args: ReadDiffArgs,
    s: ReviewSnapshot,
    sizes: Seq<usize>,
    base: Json,
    files: Seq<Json>,
) -> bool {
    match page_start(args, s) {
        Err(message) => res matches Err(m) && m@ == message,
        Ok(c) => {
            let g = page_at(s, c.line as int, c.byte as int, page_limit(args.limit));
            match res {
                Err(m) => g.shown.error is Some && m@ == (g.shown.error->0).text(),
                Ok(v) => exists|page: DiffPage| #[trigger]
                    answered(args, s, sizes, page) && v.model() == page_js(page, s, base, files),
            }
        },
    }
}

/// Answers a request for a page of a comparison, given the comparison, the
/// values of its base and its files, and the sizes of those of the files.
pub fn answer_read_diff(
    args: &ReadDiffArgs,
    s: &ReviewSnapshot,
    sizes: &Vec<usize>,
    base: Json,
    files: &Vec<Json>,
) -> (res: Result<Json, String>)
    requires
        snapshot_ok(*s),
    ensures
        is_answer(res, *args, *s, sizes@, base, files@),
{
    let page = match read_diff(args, s, sizes) {
        Ok(page) => page,
        Err(message) => {
            return Err(message);
        },
    };
    proof {
        let c = page_start(*args, *s)->Ok_0;
        let limit = page_limit(args.limit);
        let g = page_at(*s, c.line as int, c.byte as int, limit);
        let cursor = choose|cursor: PageCursor|
            cursor.model() == c && #[trigger] is_page(page, *s, cursor, g, sizes@);
        let none = Page {
            shown: Shown { lines: 0, bytes: 0, next_byte: None, error: None },
            context: MAX_CONTEXT_BYTES as int,
            blocks: Seq::empty(),
        };
        page_blocks_exist(*s, c.line as int, c.byte as int, limit, 0, 0, none);
        assert forall|i: int| 0 <= i < page.blocks@.len() implies (#[trigger] page.blocks@[i]).block
            < s.blocks@.len() by {
            assert(is_block(page.blocks@[i], g.blocks[i], *s, cursor.byte_offset as int));
        }
    }
    Ok(page_answer(&page, s, base, files))
}

} // verus!
