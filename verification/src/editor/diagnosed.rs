//! What is shown of the diagnostics of a file, and where edits move it.
use crate::buffer::{inserted, removed, Change};
use crate::editor::diagnostics::{
    at_cursor, badge_after, counts_of, distance_of, float_text, moved_by, relined_diag, shown_on,
};
use crate::editor::lsp_state::{by_line, diag_slot, valid_diags, DiagnosticAnchor};
use crate::editor::text_edits::line_feeds;
use crate::editor::Ed;
use crate::lines::breaks_before;
use crate::lsp::{
    char_cover, covers, range_valid, utf16_before, Diag, DiagnosticSeverity, LspRange,
    Position,
};
use vstd::prelude::*;

verus! {

/// How many of the first `k` diagnostics have a severity.
pub open spec fn count_with(list: Seq<Diag>, k: int, s: Option<DiagnosticSeverity>) -> int
    decreases k,
{
    if k <= 0 || k > list.len() {
        0
    } else {
        count_with(list, k - 1, s) + if list[k - 1].severity == s {
            1int
        } else {
            0
        }
    }
}

/// Each severity is counted for itself; what has none is an error.
pub proof fn severities_are_counted_apart(list: Seq<Diag>, k: int)
    requires
        0 <= k <= list.len(),
    ensures
        counts_of(list, k) == (
            count_with(list, k, Some(DiagnosticSeverity::Error)) + count_with(list, k, None),
            count_with(list, k, Some(DiagnosticSeverity::Warning)),
            count_with(list, k, Some(DiagnosticSeverity::Information)),
            count_with(list, k, Some(DiagnosticSeverity::Hint)),
        ),
    decreases k,
{
    if k > 0 {
        severities_are_counted_apart(list, k - 1);
    }
}

/// A place moves with the character that stands there: behind an insertion it
/// goes on by its length, behind a deletion it goes back; it is lost only
/// where the character before it and that at it are both taken out.
pub proof fn places_move_with_their_characters(t: Seq<char>, pos: int, c: Change)
    requires
        0 <= pos < t.len(),
        match c {
            Change::Insert(at, new) => 0 <= at <= t.len() && t.len() + new.len() < usize::MAX,
            Change::Delete(at, gone) => 0 <= at && at + gone.len() <= t.len() && gone.len() > 0,
        },
    ensures
        match (c, moved_by(pos, c)) {
            (Change::Insert(at, new), Some(p)) => {
                let u = inserted(t, at, new);
                0 <= p < u.len() && u[p] == t[pos] && (p == pos <==> pos < at || new.len() == 0)
            },
            (Change::Delete(at, gone), Some(p)) => {
                let u = removed(t, at, at + gone.len());
                if pos == at {
                    p == at
                } else {
                    0 <= p < u.len() && u[p] == t[pos]
                }
            },
            (Change::Delete(at, gone), None) => at < pos < at + gone.len(),
            _ => false,
        },
{
    match c {
        Change::Insert(at, new) => {
            let u = inserted(t, at, new);
            if pos < at {
                assert(u[pos] == t[pos]);
            } else {
                assert(u[pos + new.len()] == t[pos]);
            }
        },
        Change::Delete(at, gone) => {
            let u = removed(t, at, at + gone.len());
            if pos < at {
                assert(u[pos] == t[pos]);
            } else if pos >= at + gone.len() {
                assert(u[pos - gone.len()] == t[pos]);
            }
        },
    }
}

/// A position lies in a range: at or behind its start, and before its end.
pub open spec fn lies_in(p: Position, r: LspRange) -> bool {
    r.start.le(p) && p.le(r.end) && p != r.end
}

/// A range shows on the line that it starts on, and on every other line that
/// has a position in it.
pub proof fn ranges_show_on_their_lines(r: LspRange, line: u32, c: u32)
    requires
        range_valid(r),
    ensures
        r.start.line == line ==> covers(r, line as int),
        lies_in(Position { line, character: c }, r) ==> covers(r, line as int),
        covers(r, line as int) && r.start.line != line ==> lies_in(
            Position { line, character: 0 },
            r,
        ),
        !(r.start.line <= line <= r.end.line) ==> !covers(r, line as int),
{
}

/// Diagnostics are sorted by the line that they start on.
pub open spec fn sorted_by_line(list: Seq<Diag>) -> bool {
    forall|i: int, j: int|
        0 <= i < j < list.len() ==> (#[trigger] list[i]).range.start.line <= (
        #[trigger] list[j]).range.start.line
}

proof fn slot_is(list: Seq<Diag>, k: int, line: int)
    requires
        0 <= k <= list.len(),
        sorted_by_line(list),
        forall|i: int| k <= i < list.len() ==> (#[trigger] list[i]).range.start.line > line,
    ensures
        0 <= diag_slot(list, k, line) <= k,
        forall|i: int|
            0 <= i < diag_slot(list, k, line) ==> (#[trigger] list[i]).range.start.line <= line,
        forall|i: int|
            diag_slot(list, k, line) <= i < list.len() ==> (#[trigger] list[i]).range.start.line
                > line,
    decreases k,
{
    if k > 0 && list[k - 1].range.start.line > line {
        slot_is(list, k - 1, line);
    }
}

/// What is shown of a list of diagnostics is in the order of their lines, and
/// of those of one line in the order in which they came; none is there twice
/// and none is lost but those whose range ends before it starts.
pub proof fn diagnostics_are_ordered_by_line(list: Seq<Diag>, k: int)
    requires
        0 <= k <= list.len(),
    ensures
        sorted_by_line(by_line(list, k)),
        by_line(list, k).to_multiset() == valid_diags(list, k).to_multiset(),
    decreases k,
{
    if k > 0 {
        diagnostics_are_ordered_by_line(list, k - 1);
        let before = by_line(list, k - 1);
        let d = list[k - 1];
        if range_valid(d.range) {
            let line = d.range.start.line as int;
            slot_is(before, before.len() as int, line);
            let at = diag_slot(before, before.len() as int, line);
            let now = by_line(list, k);
            assert(now == before.insert(at, d));
            assert forall|i: int, j: int| 0 <= i < j < now.len() implies (
            #[trigger] now[i]).range.start.line <= (#[trigger] now[j]).range.start.line by {
                let a = if i < at {
                    before[i]
                } else if i == at {
                    d
                } else {
                    before[i - 1]
                };
                let b = if j < at {
                    before[j]
                } else if j == at {
                    d
                } else {
                    before[j - 1]
                };
                assert(now[i] == a && now[j] == b);
            }
            now.to_multiset_ensures();
            before.to_multiset_ensures();
            assert(now.remove(at) =~= before);
            assert(now[at] == d);
            assert(now.contains(d));
            assert(now.to_multiset() =~= before.to_multiset().insert(d));
            valid_diags(list, k - 1).to_multiset_ensures();
        }
    }
}


/// The diagnostic at the cursor is one of those that show on its line; there is
/// one whenever there are any.
pub proof fn the_diagnostic_at_the_cursor_shows(e: Ed)
    ensures
        at_cursor(e) is Some <==> shown_on(e, e.cur().line()).len() > 0,
        at_cursor(e) matches Some(d) ==> shown_on(e, e.cur().line()).contains(d),
{
    let list = shown_on(e, e.cur().line());
    if list.len() > 0 {
        crate::editor::diagnostics::nearest_is_nearest(
            list,
            e.cur().line(),
            e.cur().here(),
            e.cur().char_col(),
            list.len() as int,
            0,
        );
    }
}

/// A column that a range holds is at no distance from it; another is as far
/// away as its nearer end.
pub proof fn distances_are_to_the_nearer_end(d: Diag, line: int, text: Seq<char>, col: int)
    ensures
        ({
            let (start, end) = char_cover(d.range, line, text);
            let (away, distance) = distance_of(d, line, text, col);
            &&& start <= end
            &&& start <= col < end ==> !away && distance == 0
            &&& col < start ==> away && distance == start - col
            &&& col > end ==> away && distance == col - end
        }),
{
}

/// The counts that are shown change only where the numbers do; where they do,
/// a badge that was put away comes back.
pub proof fn badges_come_back(badge: (bool, (usize, usize)), count: (usize, usize))
    ensures
        badge_after(badge, count).1 == count,
        badge.1 == count ==> badge_after(badge, count) == badge,
        badge.1 != count ==> !badge_after(badge, count).0,
{
}

/// What a diagnostic's window says starts with its severity and its message.
pub proof fn windows_name_the_severity(d: Diag)
    ensures
        ({
            let t = float_text(d);
            let head = |label: Seq<char>| "**"@ + label + "**: "@ + d.message;
            let label = match d.severity {
                Some(DiagnosticSeverity::Error) => "Error"@,
                Some(DiagnosticSeverity::Warning) => "Warning"@,
                Some(DiagnosticSeverity::Information) => "Info"@,
                Some(DiagnosticSeverity::Hint) => "Hint"@,
                _ => "Diagnostic"@,
            };
            t.len() >= head(label).len() && t.take(head(label).len() as int) == head(label)
        }),
{
    let t = float_text(d);
    let label = match d.severity {
        Some(DiagnosticSeverity::Error) => "Error"@,
        Some(DiagnosticSeverity::Warning) => "Warning"@,
        Some(DiagnosticSeverity::Information) => "Info"@,
        Some(DiagnosticSeverity::Hint) => "Hint"@,
        _ => "Diagnostic"@,
    };
    let head = "**"@ + label + "**: "@ + d.message;
    assert(t.take(head.len() as int) =~= head);
}

/// A diagnostic whose line moved starts on the line that its anchor now has,
/// and spans as many lines as before.
pub proof fn moved_diagnostics_keep_their_height(d: Diag, a: DiagnosticAnchor, t: Seq<char>)
    requires
        range_valid(d.range),
        a.line_start <= t.len(),
        breaks_before(t, a.line_start as int) + (d.range.end.line - d.range.start.line)
            <= u32::MAX,
    ensures
        ({
            let r = relined_diag(d, a, t).range;
            &&& r.start.line == breaks_before(t, a.line_start as int)
            &&& r.end.line - r.start.line == d.range.end.line - d.range.start.line
            &&& r.start.character == d.range.start.character
            &&& r.end.character == d.range.end.character
        }),
        relined_diag(d, a, t).message == d.message,
        relined_diag(d, a, t).severity == d.severity,
{
}

/// A character of the first plane takes one unit of UTF-16, any other two.
pub proof fn characters_take_units(t: Seq<char>, k: int)
    requires
        0 < k <= t.len(),
    ensures
        (t[k - 1] as u32) <= 0xFFFF ==> utf16_before(t, k) == utf16_before(t, k - 1) + 1,
        (t[k - 1] as u32) > 0xFFFF ==> utf16_before(t, k) == utf16_before(t, k - 1) + 2,
        utf16_before(t, 0) == 0,
{
}

/// Line ends of every kind become line feeds: none of the others is left, and
/// a text that has line feeds alone stays.
pub proof fn line_ends_become_feeds(t: Seq<char>, k: int)
    requires
        0 <= k <= t.len(),
    ensures
        forall|i: int| 0 <= i < line_feeds(t, k).len() ==> line_feeds(t, k)[i] != '\r',
        (forall|i: int| 0 <= i < k ==> t[i] != '\r') ==> line_feeds(t, k) == t.take(k),
        k >= 2 && t[k - 2] == '\r' && t[k - 1] == '\n' ==> line_feeds(t, k) == line_feeds(t, k - 2)
            + seq!['\n'],
        k >= 1 && t[k - 1] == '\r' ==> line_feeds(t, k) == line_feeds(t, k - 1) + seq!['\n'],
        k >= 1 && t[k - 1] != '\r' && t[k - 1] != '\n' ==> line_feeds(t, k) == line_feeds(t, k - 1)
            + seq![t[k - 1]],
    decreases k,
{
    if k > 0 {
        line_ends_become_feeds(t, k - 1);
        if forall|i: int| 0 <= i < k ==> t[i] != '\r' {
            assert(line_feeds(t, k) =~= t.take(k));
        }
        if k >= 2 && t[k - 2] == '\r' && t[k - 1] == '\n' {
            assert(line_feeds(t, k) =~= line_feeds(t, k - 2) + seq!['\n']);
        }
        if t[k - 1] == '\r' {
            assert(line_feeds(t, k) =~= line_feeds(t, k - 1) + seq!['\n']);
        }
        if t[k - 1] != '\r' && t[k - 1] != '\n' {
            assert(line_feeds(t, k) =~= line_feeds(t, k - 1) + seq![t[k - 1]]);
        }
    } else {
        assert(t.take(0) =~= Seq::<char>::empty());
    }
}

} // verus!
