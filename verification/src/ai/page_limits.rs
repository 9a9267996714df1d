//! The limits of what an agent asks for and is answered with.
use crate::ai::custom_diff::{has_line_end, pairs_in, request_refused, SectionSides};
use crate::ai::diff_pages::{
    block_path, boundary_to, context_above, context_below, files_to, is_context, page_limit,
    preview_of, MAX_CONTEXT_BYTES, MAX_FILE_SUMMARY_BYTES, MAX_PAGE_BYTES,
};
use crate::ai::page_answer::kind_text;
use crate::ai::tool_input::{pairing_of, pairings_to, read_diff_input, show_custom_diff_input};
use crate::diff_review::render::trimmed;
use crate::fmt::byte_count;
use crate::json::Js;
use crate::native_diff::{PatchLine, PatchLineKind, ReviewBlock, ReviewPatch};
use crate::text_index::{bytes_before, bytes_grow};
use vstd::prelude::*;

verus! {

/// A request for a page that is read asks for one to two hundred lines, and its
/// cursor has one to five hundred and twelve characters.
pub proof fn page_requests_keep_their_limits(v: Js)
    ensures
        match read_diff_input(v) {
            Ok((id, limit, cursor)) => {
                &&& id matches Some(t) ==> t.len() >= 1
                &&& limit matches Some(n) ==> 1 <= n <= 200
                &&& cursor matches Some(t) ==> 1 <= t.len() <= 512
            },
            Err(_) => true,
        },
        match read_diff_input(v) {
            Ok((id, limit, cursor)) => {
                &&& v.member("snapshot_id"@) is None <==> id is None
                &&& v.member("cursor"@) is None <==> cursor is None
                &&& v.member("limit"@) is None <==> limit is None
                &&& id matches Some(t) ==> v.member("snapshot_id"@) == Some(Js::Text(t))
                &&& cursor matches Some(t) ==> v.member("cursor"@) == Some(Js::Text(t))
            },
            Err(_) => true,
        },
{
}

/// A request for a rearranged review that is read names its comparison, has a
/// title of one to two hundred characters, and a thousand sections at most,
/// each of which takes removed or added lines.
pub proof fn review_requests_keep_their_limits(v: Js, i: int)
    ensures
        match show_custom_diff_input(v) {
            Ok((id, title, pairings)) => {
                &&& v.member("snapshot_id"@) == Some(Js::Text(id)) && id.len() >= 1
                &&& v.member("title"@) == Some(Js::Text(title)) && 1 <= title.len() <= 200
                &&& pairings.len() <= 1000
                &&& 0 <= i < pairings.len() ==> pairings[i].old is Some || pairings[i].new is Some
                &&& 0 <= i < pairings.len() ==> (pairings[i].label matches Some(l) ==> l.len()
                    <= 200)
            },
            Err(_) => true,
        },
{
    if let Ok((id, title, pairings)) = show_custom_diff_input(v) {
        if let Some(Js::List(items)) = v.member("pairings"@) {
            sections_are_read(items, items.len() as int);
            if 0 <= i < pairings.len() {
                assert(pairing_of(items[i]) == Some(pairings[i]));
            }
        }
    }
}

proof fn sections_are_read(items: Seq<Js>, k: int)
    requires
        0 <= k <= items.len(),
    ensures
        pairings_to(items, k) matches Some(list) ==> {
            &&& list.len() == k
            &&& forall|i: int|
                0 <= i < k ==> #[trigger] pairing_of(items[i]) == Some(list[i]) && (list[i].old is Some
                    || list[i].new is Some) && (list[i].label matches Some(l) ==> l.len() <= 200)
        },
    decreases k,
{
    if k > 0 {
        sections_are_read(items, k - 1);
        if let Some(list) = pairings_to(items, k) {
            let before = pairings_to(items, k - 1)->0;
            assert forall|i: int| 0 <= i < k implies #[trigger] pairing_of(items[i]) == Some(list[i])
                && (list[i].old is Some || list[i].new is Some) && (list[i].label matches Some(l)
                ==> l.len() <= 200) by {
                if i < k - 1 {
                    assert(list[i] == before[i]);
                    assert(pairing_of(items[i]) == Some(before[i]));
                }
            }
        }
    }
}

/// A request is refused for a title that is blank or has a line end, for a
/// label with a line end, and for a call without an id; and for nothing else.
pub proof fn requests_are_refused_for_cause(
    title: Seq<char>,
    labels: Seq<Option<String>>,
    call: Seq<char>,
    i: int,
)
    ensures
        trimmed(title).len() == 0 || title.contains('\n') || title.contains('\r')
            ==> request_refused(title, labels, call) == Some(
            "title must be a nonblank single line"@,
        ),
        0 <= i < labels.len() && labels[i] is Some && ((labels[i]->0)@.contains('\n') || (
        labels[i]->0)@.contains('\r')) ==> request_refused(title, labels, call) is Some,
        call.len() == 0 ==> request_refused(title, labels, call) is Some,
        trimmed(title).len() > 0 && !title.contains('\n') && !title.contains('\r') && call.len() > 0
            && (forall|j: int|
            0 <= j < labels.len() ==> ((#[trigger] labels[j]) matches Some(l) ==> !l@.contains('\n')
                && !l@.contains('\r'))) ==> request_refused(title, labels, call) is None,
{
    if 0 <= i < labels.len() && labels[i] is Some && ((labels[i]->0)@.contains('\n') || (
    labels[i]->0)@.contains('\r')) {
        assert(labels[i] matches Some(l) && has_line_end(l@));
    }
}

/// A section counts as a pair where it takes both sides.
pub proof fn pairs_take_both_sides(sections: Seq<SectionSides>, k: int)
    requires
        0 < k <= sections.len(),
    ensures
        pairs_in(sections, k) == pairs_in(sections, k - 1) + if sections[k - 1].old
            && sections[k - 1].new {
            1nat
        } else {
            0nat
        },
        pairs_in(sections, 0) == 0,
{
}

/// A page holds a hundred lines where no number is asked for, and else as many
/// as are asked for, one at least and two hundred at most.
pub proof fn pages_hold_what_is_asked_for(n: usize)
    ensures
        page_limit(None) == 100,
        1 <= n <= 200 ==> page_limit(Some(n)) == n,
        n < 1 ==> page_limit(Some(n)) == 1,
        n > 200 ==> page_limit(Some(n)) == 200,
        MAX_PAGE_BYTES == 32768,
        MAX_FILE_SUMMARY_BYTES == 8192,
        MAX_CONTEXT_BYTES == 4096,
{
}

proof fn boundary_is_last(t: Seq<char>, byte: int, k: int)
    requires
        0 <= k <= t.len(),
        bytes_before(t, k) <= byte,
    ensures
        ({
            let e = boundary_to(t, byte, k);
            &&& k <= e <= t.len()
            &&& bytes_before(t, e) <= byte
            &&& e < t.len() ==> bytes_before(t, e + 1) > byte
        }),
    decreases t.len() - k,
{
    if k < t.len() && bytes_before(t, k + 1) <= byte {
        boundary_is_last(t, byte, k + 1);
    }
}

/// What is shown of an unchanged line: all of it, where it has two hundred and
/// fifty-six bytes at most and they are left; else as many whole characters as
/// fit, and a mark that it was cut. Nothing is shown where fewer than four bytes
/// are left.
pub proof fn previews_show_what_fits(line: Seq<char>, remaining: int)
    requires
        0 <= remaining,
    ensures
        remaining < 4 ==> preview_of(line, remaining) == (None::<Seq<char>>, remaining),
        remaining >= 4 && byte_count(line) <= 256 && byte_count(line) <= remaining ==> preview_of(
            line,
            remaining,
        ) == (Some(line), remaining - byte_count(line)),
        remaining >= 4 && (byte_count(line) > 256 || byte_count(line) > remaining) ==> exists|k: int|
            {
                &&& 0 <= k < line.len()
                &&& #[trigger] bytes_before(line, k) <= 256
                &&& bytes_before(line, k) <= remaining
                &&& bytes_before(line, k + 1) > 256 || bytes_before(line, k + 1) > remaining
                &&& preview_of(line, remaining).0 == Some(line.take(k).push('…'))
            },
{
    if remaining >= 4 {
        let limit = if remaining < 256 {
            remaining
        } else {
            256
        };
        assert(bytes_before(line, 0) == 0);
        boundary_is_last(line, limit, 0);
        let k = boundary_to(line, limit, 0);
        if byte_count(line) <= limit {
            if k < line.len() {
                bytes_grow(line, k + 1, line.len() as int);
            }
            assert(k == line.len());
        } else {
            assert(k < line.len());
            assert(bytes_before(line, k) <= 256);
        }
    }
}

/// A summary holds files in order from one on: always the first, and further
/// ones as long as they fit together.
pub proof fn summaries_hold_what_fits(
    sizes: Seq<usize>,
    count: int,
    from: int,
    k: int,
    bytes: int,
)
    requires
        0 <= from <= k <= count,
        count <= sizes.len(),
        0 <= bytes,
        k > from + 1 ==> bytes <= 8192,
    ensures
        ({
            let to = files_to(sizes, count, from, k, bytes);
            &&& k <= to <= count
            &&& k == from && from < count ==> to > from
            &&& to < count && to > from ==> size_of(sizes, k, to) + bytes + sizes[to] > 8192
            &&& to > from + 1 ==> size_of(sizes, k, to) + bytes <= 8192
        }),
    decreases count - k,
{
    if k < count {
        let size = sizes[k] as int;
        if !(bytes + size > MAX_FILE_SUMMARY_BYTES && k > from) {
            summaries_hold_what_fits(sizes, count, from, k + 1, bytes + size);
            let to = files_to(sizes, count, from, k + 1, bytes + size);
            size_from(sizes, k, to);
        }
    }
}

/// How large some files' summaries are together.
pub open spec fn size_of(sizes: Seq<usize>, from: int, to: int) -> int
    decreases to - from,
{
    if from >= to {
        0
    } else {
        size_of(sizes, from, to - 1) + sizes[to - 1]
    }
}

proof fn size_from(sizes: Seq<usize>, from: int, to: int)
    requires
        0 <= from < to <= sizes.len(),
    ensures
        size_of(sizes, from, to) == sizes[from] + size_of(sizes, from + 1, to),
    decreases to - from,
{
    reveal_with_fuel(size_of, 2);
    if to > from + 1 {
        size_from(sizes, from, to - 1);
    }
}

/// Removed lines are in the file under its old name, all others in it under its
/// new one.
pub proof fn blocks_are_in_their_file(p: ReviewPatch, b: ReviewBlock)
    requires
        b.file < p.files@.len(),
    ensures
        ({
            let file = p.files@[b.file as int];
            &&& b.kind is Removed && file.old_path is Some ==> block_path(p, b) == (
            file.old_path->0)@
            &&& !(b.kind is Removed) || file.old_path is None ==> block_path(p, b) == file.path@
        }),
{
}

/// Kinds of lines are written by their names.
pub proof fn kinds_are_written_by_name()
    ensures
        kind_text(PatchLineKind::Added) == "added"@,
        kind_text(PatchLineKind::Removed) == "removed"@,
        kind_text(PatchLineKind::Context) == "context"@,
        kind_text(PatchLineKind::HunkHeader) == "hunk_header"@,
        kind_text(PatchLineKind::FileHeader) == "file_header"@,
        kind_text(PatchLineKind::Meta) == "meta"@,
{
}

/// The unchanged lines shown around a block stand directly before and behind
/// it, are of its file, and are three at most; fewer only where another line
/// follows.
pub proof fn context_stands_around_blocks(lines: Seq<PatchLine>, start: int, file: usize, n: int)
    requires
        0 <= n,
    ensures
        ({
            let above = context_above(lines, start, file, n);
            let below = context_below(lines, start, file, n);
            &&& 0 <= above <= n
            &&& 0 <= below <= n
            &&& forall|i: int|
                start - above <= i < start ==> 0 <= i < lines.len() && (#[trigger] lines[i]).kind
                    is Context && lines[i].file == Some(file)
            &&& forall|i: int|
                start <= i < start + below ==> 0 <= i < lines.len() && (#[trigger] lines[i]).kind
                    is Context && lines[i].file == Some(file)
            &&& above < n ==> !is_context(lines, start - above - 1, file)
            &&& below < n ==> !is_context(lines, start + below, file)
        }),
    decreases n,
{
    if n > 0 {
        context_stands_around_blocks(lines, start - 1, file, n - 1);
        context_stands_around_blocks(lines, start + 1, file, n - 1);
    }
}

} // verus!
