//! The side-by-side layout leaves no line of a patch out, and every file has a
//! place in a review.
use crate::diff_review::highlight::PatchHighlights;
use crate::diff_review::render::{
    at_least, nth, page_of, pair_row, pair_rows, review_body, review_top, split_body, unified_body,
    with_fallback, with_pair, with_pair_rows, with_pairs, Body, DiffLayout, DocLine, Page,
    ReviewRow, Split,
};
use crate::native_diff::{DiffFile, PatchLineKind, ReviewPatch};
use crate::syntax::HighlightGroup;
use vstd::prelude::*;

verus! {

/// A row shows a patch line on the left, on the right, or on both sides.
pub open spec fn row_shows(row: ReviewRow, i: int, left: bool, right: bool) -> bool {
    &&& left ==> (row.left matches Some(cell) && cell.patch_line == i)
    &&& right ==> (row.right matches Some(cell) && cell.patch_line == i)
}

pub open spec fn some_row_shows(doc: Seq<DocLine>, i: int, left: bool, right: bool) -> bool {
    exists|r: int| 0 <= r < doc.len() && row_shows((#[trigger] doc[r]).row, i, left, right)
}

/// A review shows a patch line: what was removed on the left, what was added
/// on the right, what stayed on both sides, and anything else on the left. The
/// header of a file gives way to the file's banner.
pub open spec fn line_is_shown(doc: Seq<DocLine>, page: Page, i: int) -> bool {
    match page.lines[i].kind {
        PatchLineKind::FileHeader => true,
        PatchLineKind::Context => some_row_shows(doc, i, true, true),
        PatchLineKind::Added => some_row_shows(doc, i, false, true),
        _ => some_row_shows(doc, i, true, false),
    }
}

spec fn extends(before: Seq<DocLine>, after: Seq<DocLine>) -> bool {
    &&& before.len() <= after.len()
    &&& forall|r: int| 0 <= r < before.len() ==> #[trigger] after[r] == before[r]
}

proof fn still_shown(before: Seq<DocLine>, after: Seq<DocLine>, i: int, left: bool, right: bool)
    requires
        extends(before, after),
        some_row_shows(before, i, left, right),
    ensures
        some_row_shows(after, i, left, right),
{
    let r = choose|r: int| 0 <= r < before.len() && row_shows((#[trigger] before[r]).row, i, left, right);
    assert(after[r] == before[r]);
}

proof fn pair_rows_extend(
    doc: Seq<DocLine>,
    page: Page,
    old: Option<usize>,
    new: Option<usize>,
    k: int,
)
    requires
        k >= 0,
    ensures
        extends(doc, with_pair_rows(doc, page, old, new, k)),
        with_pair_rows(doc, page, old, new, k).len() == doc.len() + k,
        k > 0 ==> with_pair_rows(doc, page, old, new, k)[doc.len() as int].row == pair_row(
            page,
            old,
            new,
            0,
            pair_rows(page, old, new),
        ).1,
    decreases k,
{
    if k > 0 {
        pair_rows_extend(doc, page, old, new, k - 1);
    }
}

proof fn pair_is_shown(doc: Seq<DocLine>, page: Page, old: Option<usize>, new: Option<usize>)
    ensures
        extends(doc, with_pair(doc, page, old, new)),
        old matches Some(i) ==> some_row_shows(
            with_pair(doc, page, old, new),
            i as int,
            true,
            false,
        ),
        new matches Some(i) ==> some_row_shows(
            with_pair(doc, page, old, new),
            i as int,
            false,
            true,
        ),
        old is Some && old == new ==> some_row_shows(
            with_pair(doc, page, old, new),
            old->0 as int,
            true,
            true,
        ),
{
    let after = with_pair(doc, page, old, new);
    pair_rows_extend(doc, page, old, new, pair_rows(page, old, new));
    let row = after[doc.len() as int].row;
    if let Some(i) = old {
        assert(row_shows(row, i as int, true, false));
    }
    if let Some(i) = new {
        assert(row_shows(row, i as int, false, true));
    }
    if old is Some && old == new {
        assert(row_shows(row, old->0 as int, true, true));
    }
}

proof fn pairs_are_shown(doc: Seq<DocLine>, page: Page, old: Seq<usize>, new: Seq<usize>, k: int)
    requires
        k >= 0,
    ensures
        extends(doc, with_pairs(doc, page, old, new, k)),
        forall|j: int|
            0 <= j < k && j < old.len() ==> some_row_shows(
                with_pairs(doc, page, old, new, k),
                #[trigger] old[j] as int,
                true,
                false,
            ),
        forall|j: int|
            0 <= j < k && j < new.len() ==> some_row_shows(
                with_pairs(doc, page, old, new, k),
                #[trigger] new[j] as int,
                false,
                true,
            ),
    decreases k,
{
    if k > 0 {
        pairs_are_shown(doc, page, old, new, k - 1);
        let before = with_pairs(doc, page, old, new, k - 1);
        let after = with_pairs(doc, page, old, new, k);
        pair_is_shown(before, page, nth(old, k - 1), nth(new, k - 1));
        assert(extends(doc, after)) by {
            assert forall|r: int| 0 <= r < doc.len() implies #[trigger] after[r] == doc[r] by {
                assert(before[r] == doc[r]);
            }
        }
        assert forall|j: int| 0 <= j < k && j < old.len() implies some_row_shows(
            after,
            #[trigger] old[j] as int,
            true,
            false,
        ) by {
            if j < k - 1 {
                still_shown(before, after, old[j] as int, true, false);
            }
        }
        assert forall|j: int| 0 <= j < k && j < new.len() implies some_row_shows(
            after,
            #[trigger] new[j] as int,
            false,
            true,
        ) by {
            if j < k - 1 {
                still_shown(before, after, new[j] as int, false, true);
            }
        }
    }
}

/// Every one of the first `k` lines is shown, or waits to be.
spec fn none_lost(b: Split, page: Page, k: int) -> bool {
    forall|i: int|
        0 <= i < k ==> #[trigger] line_is_shown(b.body.doc, page, i) || (page.lines[i].kind is Removed
            && b.old.contains(i as usize)) || (page.lines[i].kind is Added && b.new.contains(
            i as usize,
        ))
}

proof fn line_stays(before: Seq<DocLine>, after: Seq<DocLine>, page: Page, i: int)
    requires
        extends(before, after),
        line_is_shown(before, page, i),
    ensures
        line_is_shown(after, page, i),
{
    match page.lines[i].kind {
        PatchLineKind::FileHeader => {},
        PatchLineKind::Context => still_shown(before, after, i, true, true),
        PatchLineKind::Added => still_shown(before, after, i, false, true),
        _ => still_shown(before, after, i, true, false),
    }
}

proof fn flushing_loses_none(b: Split, page: Page, k: int)
    requires
        none_lost(b, page, k),
        0 <= k <= page.lines.len() <= usize::MAX,
    ensures
        extends(b.body.doc, b.flushed(page).body.doc),
        forall|i: int| 0 <= i < k ==> #[trigger] line_is_shown(b.flushed(page).body.doc, page, i),
{
    let n = at_least(b.old.len() as int, b.new.len() as int);
    let after = b.flushed(page).body.doc;
    pairs_are_shown(b.body.doc, page, b.old, b.new, n);
    assert forall|i: int| 0 <= i < k implies #[trigger] line_is_shown(after, page, i) by {
        if line_is_shown(b.body.doc, page, i) {
            line_stays(b.body.doc, after, page, i);
        } else if page.lines[i].kind is Removed {
            let j = choose|j: int| 0 <= j < b.old.len() && b.old[j] == i as usize;
            assert(some_row_shows(after, b.old[j] as int, true, false));
        } else {
            let j = choose|j: int| 0 <= j < b.new.len() && b.new[j] == i as usize;
            assert(some_row_shows(after, b.new[j] as int, false, true));
        }
    }
}

proof fn entering_loses_none(b: Split, page: Page, files: Seq<DiffFile>, k: int)
    requires
        none_lost(b, page, k),
        0 <= k < page.lines.len() <= usize::MAX,
    ensures
        none_lost(b.entered(page, files, k), page, k),
{
    if page.lines[k].file != b.file {
        flushing_loses_none(b, page, k);
        let before = b.flushed(page).body.doc;
        let after = b.entered(page, files, k).body.doc;
        assert(extends(before, after));
        assert forall|i: int| 0 <= i < k implies #[trigger] line_is_shown(after, page, i) by {
            line_stays(before, after, page, i);
        }
    }
}

/// A line that joins those that wait is not lost.
proof fn waiting_line(c: Split, after: Split, page: Page, k: int)
    requires
        none_lost(c, page, k),
        0 <= k < page.lines.len() <= usize::MAX,
        after.body.doc == c.body.doc,
        (page.lines[k].kind is Removed && after.old == c.old.push(k as usize) && after.new == c.new)
            || (page.lines[k].kind is Added && after.old == c.old && after.new == c.new.push(
            k as usize,
        )),
    ensures
        none_lost(after, page, k + 1),
{
    assert forall|i: int| 0 <= i < k + 1 implies #[trigger] line_is_shown(after.body.doc, page, i)
        || (page.lines[i].kind is Removed && after.old.contains(i as usize)) || (
    page.lines[i].kind is Added && after.new.contains(i as usize)) by {
        if i == k {
            if page.lines[k].kind is Removed {
                assert(after.old[c.old.len() as int] == k as usize);
            } else {
                assert(after.new[c.new.len() as int] == k as usize);
            }
        } else if line_is_shown(c.body.doc, page, i) {
        } else if page.lines[i].kind is Removed {
            let j = choose|j: int| 0 <= j < c.old.len() && c.old[j] == i as usize;
            assert(after.old[j] == i as usize);
        } else {
            let j = choose|j: int| 0 <= j < c.new.len() && c.new[j] == i as usize;
            assert(after.new[j] == i as usize);
        }
    }
}

/// Where all lines are shown, one more that is shown loses none.
proof fn shown_line(before: Seq<DocLine>, after: Split, page: Page, k: int)
    requires
        extends(before, after.body.doc),
        forall|i: int| 0 <= i < k ==> #[trigger] line_is_shown(before, page, i),
        line_is_shown(after.body.doc, page, k),
    ensures
        none_lost(after, page, k + 1),
{
    assert forall|i: int| 0 <= i < k implies #[trigger] line_is_shown(after.body.doc, page, i) by {
        line_stays(before, after.body.doc, page, i);
    }
}

proof fn context_line(c: Split, after: Split, page: Page, k: int)
    requires
        none_lost(c, page, k),
        0 <= k < page.lines.len() <= usize::MAX,
        page.lines[k].kind is Context,
        after.body.doc == with_pair(
            c.flushed(page).body.doc,
            page,
            Some(k as usize),
            Some(k as usize),
        ),
    ensures
        none_lost(after, page, k + 1),
{
    flushing_loses_none(c, page, k);
    let before = c.flushed(page).body.doc;
    pair_is_shown(before, page, Some(k as usize), Some(k as usize));
    shown_line(before, after, page, k);
}

proof fn quoted_line(c: Split, group: HighlightGroup, hunk: bool, page: Page, k: int)
    requires
        none_lost(c, page, k),
        0 <= k < page.lines.len() <= usize::MAX,
        page.lines[k].kind is HunkHeader || page.lines[k].kind is Meta,
    ensures
        none_lost(c.quoted(page, k, group, hunk), page, k + 1),
{
    flushing_loses_none(c, page, k);
    let before = c.flushed(page).body.doc;
    let after = c.quoted(page, k, group, hunk);
    assert(row_shows(after.body.doc[before.len() as int].row, k, true, false));
    shown_line(before, after, page, k);
}

proof fn line_loses_none(b: Split, page: Page, files: Seq<DiffFile>, k: int)
    requires
        none_lost(b, page, k),
        0 <= k < page.lines.len() <= usize::MAX,
    ensures
        none_lost(b.with_line(page, files, k), page, k + 1),
{
    let c = b.entered(page, files, k);
    entering_loses_none(b, page, files, k);
    let after = b.with_line(page, files, k);
    match page.lines[k].kind {
        PatchLineKind::FileHeader => {
            assert(line_is_shown(after.body.doc, page, k));
        },
        PatchLineKind::Removed => waiting_line(c, after, page, k),
        PatchLineKind::Added => waiting_line(c, after, page, k),
        PatchLineKind::Context => context_line(c, after, page, k),
        PatchLineKind::HunkHeader => quoted_line(c, HighlightGroup::DiffLocation, true, page, k),
        PatchLineKind::Meta => quoted_line(c, HighlightGroup::Comment, false, page, k),
    }
}

proof fn body_loses_none(start: Body, page: Page, files: Seq<DiffFile>, k: int)
    requires
        0 <= k <= page.lines.len() <= usize::MAX,
    ensures
        none_lost(split_body(start, page, files, k), page, k),
    decreases k,
{
    if k > 0 {
        body_loses_none(start, page, files, k - 1);
        line_loses_none(split_body(start, page, files, k - 1), page, files, k - 1);
    }
}

/// Side by side, every line of a patch is shown: what was removed on the left,
/// what was added on the right, and what stayed on both sides of one row.
pub proof fn split_shows_every_line(start: Body, page: Page, files: Seq<DiffFile>, i: int)
    requires
        0 <= i < page.lines.len() <= usize::MAX,
    ensures
        line_is_shown(
            split_body(start, page, files, page.lines.len() as int).flushed(page).body.doc,
            page,
            i,
        ),
{
    let n = page.lines.len() as int;
    body_loses_none(start, page, files, n);
    flushing_loses_none(split_body(start, page, files, n), page, n);
}

/// Every file that has a line of its own has one of the review.
spec fn files_noted(b: Body) -> bool {
    forall|i: int|
        0 <= i < b.files.len() ==> #[trigger] b.files[i] == usize::MAX || b.files[i] < b.doc.len()
}

proof fn flushing_grows(b: Split, page: Page)
    ensures
        b.body.doc.len() <= b.flushed(page).body.doc.len(),
        b.flushed(page).body.files == b.body.files,
{
    let n = at_least(b.old.len() as int, b.new.len() as int);
    pairs_are_shown(b.body.doc, page, b.old, b.new, n);
}

proof fn entering_grows(b: Split, page: Page, files: Seq<DiffFile>, i: int)
    requires
        files_noted(b.body),
        b.entered(page, files, i).body.doc.len() <= usize::MAX,
    ensures
        b.body.doc.len() <= b.entered(page, files, i).body.doc.len(),
        files_noted(b.entered(page, files, i).body),
        b.entered(page, files, i).body.files.len() == b.body.files.len(),
{
    flushing_grows(b, page);
}

proof fn line_grows(b: Split, page: Page, files: Seq<DiffFile>, i: int)
    requires
        files_noted(b.body),
        b.with_line(page, files, i).body.doc.len() <= usize::MAX,
    ensures
        b.body.doc.len() <= b.with_line(page, files, i).body.doc.len(),
        files_noted(b.with_line(page, files, i).body),
        b.with_line(page, files, i).body.files.len() == b.body.files.len(),
{
    let c = b.entered(page, files, i);
    flushing_grows(c, page);
    pair_is_shown(c.flushed(page).body.doc, page, Some(i as usize), Some(i as usize));
    entering_grows(b, page, files, i);
}

proof fn split_files_are_noted(start: Body, page: Page, files: Seq<DiffFile>, k: int)
    requires
        0 <= k <= page.lines.len(),
        files_noted(start),
        split_body(start, page, files, k).body.doc.len() <= usize::MAX,
    ensures
        files_noted(split_body(start, page, files, k).body),
        split_body(start, page, files, k).body.files.len() == start.files.len(),
        start.doc.len() <= split_body(start, page, files, k).body.doc.len(),
    decreases k,
{
    if k > 0 {
        let b = split_body(start, page, files, k - 1);
        split_lines_grow(b, page, files, k - 1);
        split_files_are_noted(start, page, files, k - 1);
        line_grows(b, page, files, k - 1);
    }
}

/// A line makes a review no shorter.
proof fn split_lines_grow(b: Split, page: Page, files: Seq<DiffFile>, i: int)
    ensures
        b.body.doc.len() <= b.with_line(page, files, i).body.doc.len(),
{
    let c = b.entered(page, files, i);
    flushing_grows(b, page);
    flushing_grows(c, page);
    pair_is_shown(c.flushed(page).body.doc, page, Some(i as usize), Some(i as usize));
}

proof fn unified_files_are_noted(start: Body, page: Page, k: int)
    requires
        0 <= k <= page.lines.len(),
        files_noted(start),
        start.doc.len() + k <= usize::MAX,
    ensures
        files_noted(unified_body(start, page, k)),
        unified_body(start, page, k).files.len() == start.files.len(),
        unified_body(start, page, k).doc.len() == start.doc.len() + k,
    decreases k,
{
    if k > 0 {
        unified_files_are_noted(start, page, k - 1);
    }
}

/// Every file of a patch can be gone to: its place is a line of the review, in
/// either layout.
pub proof fn files_are_addressable(
    patch: ReviewPatch,
    code: PatchHighlights,
    layout: DiffLayout,
    width: int,
    unsaved: nat,
    tab_width: int,
    i: int,
)
    requires
        0 <= i < patch.files@.len(),
        review_body(patch, code, layout, width, unsaved, tab_width).doc.len() <= usize::MAX,
        review_top(patch, layout, unsaved).len() + patch.lines@.len() <= usize::MAX,
    ensures
        ({
            let body = review_body(patch, code, layout, width, unsaved, tab_width);
            let lines = with_fallback(body.files, at_least(body.doc.len() - 1, 0));
            lines.len() == patch.files@.len() && lines[i] < body.doc.len()
        }),
{
    let page = page_of(patch, code, width, tab_width);
    let start = Body {
        doc: review_top(patch, layout, unsaved),
        hunks: Seq::empty(),
        files: Seq::new(patch.files@.len(), |i: int| usize::MAX),
    };
    let n = patch.lines@.len() as int;
    assert(start.doc.len() > 0);
    match layout {
        DiffLayout::Unified => unified_files_are_noted(start, page, n),
        DiffLayout::Split => {
            let b = split_body(start, page, patch.files@, n);
            flushing_grows(b, page);
            split_files_are_noted(start, page, patch.files@, n);
        },
    }
    let body = review_body(patch, code, layout, width, unsaved, tab_width);
    assert(body.files[i] == usize::MAX || body.files[i] < body.doc.len());
}

} // verus!
