//! Diagnostics of the current file: their counts, where edits have moved them
//! to, and which one is at the cursor.
use crate::buffer::{changes, inserted, line_holds_position, Buffer, Change, Edit, DEFAULT_CAPACITY};
use crate::editor::clipboard::ClipboardBackend;
use crate::editor::lsp_state::{
    anchor_of, by_line, covering_of, valid_diags, Anchors, DiagnosticAnchor, HoverContentType, Lsp,
    ProjectedDiagnostics,
};
use crate::editor::ui_panels::Ui;
use crate::editor::{Ed, Editor, InputState, Mode};
use crate::lines::{
    breaks_before, line_content, line_of_position, line_start, line_start_is, raw_line_count,
};
use crate::lsp::{
    char_col_to_utf16, char_cover, covers, diagnostic_char_range, diags, range_valid, u32_of, utf16_before,
    Diag, Diagnostic, DiagnosticSeverity, LspRange, Position,
};
use crate::text::same_text;
use vstd::prelude::*;

verus! {

/// A position does not go beyond the largest number.
pub open spec fn capped(n: int) -> int {
    if n < usize::MAX {
        n
    } else {
        usize::MAX as int
    }
}

/// How many of the first `k` diagnostics are errors, warnings, information
/// and hints. One without a severity is an error; one of a severity without a
/// name is none of these.
pub open spec fn counts_of(list: Seq<Diag>, k: int) -> (int, int, int, int)
    decreases k,
{
    if k <= 0 || k > list.len() {
        (0, 0, 0, 0)
    } else {
        let (e, w, i, h) = counts_of(list, k - 1);
        match list[k - 1].severity {
            Some(DiagnosticSeverity::Error) | None => (e + 1, w, i, h),
            Some(DiagnosticSeverity::Warning) => (e, w + 1, i, h),
            Some(DiagnosticSeverity::Information) => (e, w, i + 1, h),
            Some(DiagnosticSeverity::Hint) => (e, w, i, h + 1),
            Some(DiagnosticSeverity::Other(_)) => (e, w, i, h),
        }
    }
}

/// How many diagnostics are errors, warnings, information and hints.
pub fn diagnostic_counts(diagnostics: &Vec<Diagnostic>) -> (res: (usize, usize, usize, usize))
    ensures
        (res.0 as int, res.1 as int, res.2 as int, res.3 as int) == counts_of(
            diags(diagnostics@),
            diagnostics.len() as int,
        ),
{
    let ghost all = diags(diagnostics@);
    let mut errors: usize = 0;
    let mut warnings: usize = 0;
    let mut info: usize = 0;
    let mut hints: usize = 0;
    let mut k: usize = 0;
    while k < diagnostics.len()
        invariant
            k <= diagnostics.len(),
            all == diags(diagnostics@),
            errors <= k && warnings <= k && info <= k && hints <= k,
            (errors as int, warnings as int, info as int, hints as int) == counts_of(all, k as int),
        decreases diagnostics.len() - k,
    {
        proof {
            assert(all[k as int] == diagnostics@[k as int].model());
        }
        match diagnostics[k].severity {
            Some(DiagnosticSeverity::Error) | None => errors += 1,
            Some(DiagnosticSeverity::Warning) => warnings += 1,
            Some(DiagnosticSeverity::Information) => info += 1,
            Some(DiagnosticSeverity::Hint) => hints += 1,
            Some(DiagnosticSeverity::Other(_)) => {},
        }
        k += 1;
    }
    (errors, warnings, info, hints)
}

/// How many of the first `k` diagnostics are of a severity without a name.
pub open spec fn others_of(list: Seq<Diag>, k: int) -> int
    decreases k,
{
    if k <= 0 || k > list.len() {
        0
    } else {
        others_of(list, k - 1) + if list[k - 1].severity matches Some(
            DiagnosticSeverity::Other(_),
        ) {
            1int
        } else {
            0
        }
    }
}

/// Every diagnostic is counted once, but for those of a severity without a
/// name, which are counted nowhere.
pub proof fn counts_are_complete(list: Seq<Diag>, k: int)
    requires
        0 <= k <= list.len(),
    ensures
        ({
            let (e, w, i, h) = counts_of(list, k);
            e + w + i + h + others_of(list, k) == k
        }),
    decreases k,
{
    if k > 0 {
        counts_are_complete(list, k - 1);
    }
}

/// Where one change moves a position; nowhere where it takes out the text
/// around it.
pub open spec fn moved_by(pos: int, c: Change) -> Option<int> {
    match c {
        Change::Insert(at, new) => Some(
            if pos >= at {
                capped(pos + new.len())
            } else {
                pos
            },
        ),
        Change::Delete(at, gone) => if pos >= at + gone.len() {
            Some(pos - gone.len())
        } else if pos > at {
            None
        } else {
            Some(pos)
        },
    }
}

/// Where one change moves a position, to where it took out the text around it.
pub open spec fn clamped_by(pos: int, c: Change) -> int {
    match moved_by(pos, c) {
        Some(p) => p,
        None => c->Delete_0,
    }
}

/// Where the first `k` changes move a position.
pub open spec fn moved_to(pos: int, edits: Seq<Change>, k: int) -> Option<int>
    decreases k,
{
    if k <= 0 || k > edits.len() {
        Some(pos)
    } else {
        match moved_to(pos, edits, k - 1) {
            Some(p) => moved_by(p, edits[k - 1]),
            None => None,
        }
    }
}

/// Where the first `k` changes move a position; it is never lost.
pub open spec fn clamped_to(pos: int, edits: Seq<Change>, k: int) -> int
    decreases k,
{
    if k <= 0 || k > edits.len() {
        pos
    } else {
        clamped_by(clamped_to(pos, edits, k - 1), edits[k - 1])
    }
}

fn step_offset(pos: usize, edit: &Edit) -> (res: Option<usize>)
    ensures
        match (res, moved_by(pos as int, edit.model())) {
            (Some(p), Some(q)) => p == q,
            (None, None) => true,
            _ => false,
        },
{
    match edit {
        Edit::Insert { offset, text } => if pos >= *offset {
            Some(pos.saturating_add(text.as_str().unicode_len()))
        } else {
            Some(pos)
        },
        Edit::Delete { offset, text } => {
            let len: usize = text.as_str().unicode_len();
            if pos >= *offset && pos - *offset >= len {
                Some(pos - len)
            } else if pos > *offset {
                None
            } else {
                Some(pos)
            }
        },
    }
}

/// Where edits move a position; nowhere where one takes out the text around it.
pub fn project_offset(source_offset: usize, edits: &Vec<Edit>) -> (res: Option<usize>)
    ensures
        match (res, moved_to(source_offset as int, changes(edits@), edits.len() as int)) {
            (Some(p), Some(q)) => p == q,
            (None, None) => true,
            _ => false,
        },
{
    let ghost log = changes(edits@);
    let mut pos: usize = source_offset;
    let mut k: usize = 0;
    while k < edits.len()
        invariant
            k <= edits.len(),
            log == changes(edits@),
            moved_to(source_offset as int, log, k as int) == Some(pos as int),
        decreases edits.len() - k,
    {
        proof {
            assert(log[k as int] == edits@[k as int].model());
        }
        match step_offset(pos, &edits[k]) {
            Some(p) => {
                pos = p;
            },
            None => {
                proof {
                    lost_stays_lost(source_offset as int, log, k as int + 1, log.len() as int);
                }
                return None;
            },
        }
        k += 1;
    }
    Some(pos)
}

proof fn lost_stays_lost(pos: int, edits: Seq<Change>, k: int, n: int)
    requires
        0 < k <= n <= edits.len(),
        moved_to(pos, edits, k) is None,
    ensures
        moved_to(pos, edits, n) is None,
    decreases n - k,
{
    if k < n {
        lost_stays_lost(pos, edits, k, n - 1);
    }
}

/// Where edits move a position; one in a text that was taken out goes to
/// where that text was.
pub fn project_offset_clamped(source_offset: usize, edits: &Vec<Edit>) -> (pos: usize)
    ensures
        pos == clamped_to(source_offset as int, changes(edits@), edits.len() as int),
{
    let ghost log = changes(edits@);
    let mut pos: usize = source_offset;
    let mut k: usize = 0;
    while k < edits.len()
        invariant
            k <= edits.len(),
            log == changes(edits@),
            pos == clamped_to(source_offset as int, log, k as int),
        decreases edits.len() - k,
    {
        proof {
            assert(log[k as int] == edits@[k as int].model());
        }
        pos =
        match step_offset(pos, &edits[k]) {
            Some(p) => p,
            None => match &edits[k] {
                Edit::Insert { offset, .. } => *offset,
                Edit::Delete { offset, .. } => *offset,
            },
        };
        k += 1;
    }
    pos
}

/// A position that is not lost goes to the same place either way.
pub proof fn projections_agree(pos: int, edits: Seq<Change>, k: int)
    requires
        0 <= k <= edits.len(),
    ensures
        moved_to(pos, edits, k) is Some ==> moved_to(pos, edits, k) == Some(
            clamped_to(pos, edits, k),
        ),
    decreases k,
{
    if k > 0 {
        projections_agree(pos, edits, k - 1);
    }
}

/// Positions keep their order.
pub proof fn projection_keeps_order(p: int, q: int, edits: Seq<Change>, k: int)
    requires
        0 <= k <= edits.len(),
        p <= q <= usize::MAX,
    ensures
        clamped_to(p, edits, k) <= clamped_to(q, edits, k) <= usize::MAX,
    decreases k,
{
    if k > 0 {
        projection_keeps_order(p, q, edits, k - 1);
    }
}

pub open spec fn least(a: int, b: int) -> int {
    if a < b {
        a
    } else {
        b
    }
}

/// The column of a position in the content of a line, inside it.
pub open spec fn column_in(at: int, start: int, content: Seq<char>) -> int {
    if at <= start {
        0
    } else {
        least(at - start, content.len() as int)
    }
}

/// A position as a server counts it.
pub open spec fn server_position(line: int, content: Seq<char>, col: int) -> Position {
    Position { line: u32_of(line), character: u32_of(utf16_before(content, col) as int) }
}

/// The range of a diagnostic that edits have moved, in the text that they
/// leave. It starts on the line of its anchor.
pub open spec fn projected_range(a: DiagnosticAnchor, line_at: int, edits: Seq<Change>, t: Seq<char>) -> LspRange {
    let n = edits.len() as int;
    let size = t.len() as int;
    let line = breaks_before(t, least(line_at, size));
    let start = least(clamped_to(a.start as int, edits, n), size);
    let behind = least(clamped_to(a.end as int, edits, n), size);
    let end = if behind < start {
        start
    } else {
        behind
    };
    let content = line_content(t, line);
    let first = column_in(start, line_start(t, line), content);
    let end_line = breaks_before(t, end);
    LspRange {
        start: server_position(line as int, content, first),
        end: if end_line <= line {
            let last = column_in(end, line_start(t, line), content);
            server_position(
                line as int,
                content,
                if last < first {
                    first
                } else {
                    last
                },
            )
        } else {
            let content = line_content(t, end_line);
            server_position(
                end_line as int,
                content,
                column_in(end, line_start(t, end_line), content),
            )
        },
    }
}

/// A diagnostic that edits have moved; none where its line was taken out.
pub open spec fn projected_diag(
    d: Diag,
    a: DiagnosticAnchor,
    edits: Seq<Change>,
    t: Seq<char>,
) -> Option<Diag> {
    match moved_to(a.line_start as int, edits, edits.len() as int) {
        Some(at) => Some(Diag { range: projected_range(a, at, edits, t), ..d }),
        None => None,
    }
}

/// Whatever edits do, a diagnostic's range does not end before it starts.
pub proof fn projected_range_is_valid(
    a: DiagnosticAnchor,
    line_at: int,
    edits: Seq<Change>,
    t: Seq<char>,
)
    requires
        0 <= line_at,
        places_are_positive(edits),
        t.len() < u32::MAX,
    ensures
        range_valid(projected_range(a, line_at, edits, t)),
{
    let n = edits.len() as int;
    let size = t.len() as int;
    let at = least(line_at, size);
    let line = breaks_before(t, at);
    line_holds_position(t, at);
    breaks_are_few(t, at);
    offsets_stay_positive(a.start as int, edits, n);
    offsets_stay_positive(a.end as int, edits, n);
    let start = least(clamped_to(a.start as int, edits, n), size);
    let behind = least(clamped_to(a.end as int, edits, n), size);
    let end = if behind < start {
        start
    } else {
        behind
    };
    let content = line_content(t, line);
    line_start_is(t, line);
    let first = column_in(start, line_start(t, line), content);
    let last = column_in(end, line_start(t, line), content);
    utf16_is_monotone(content, first, if last < first {
        first
    } else {
        last
    });
    if breaks_before(t, end) > line {
        breaks_are_few(t, end);
    }
}

/// Text is taken out at places of the text.
pub open spec fn places_are_positive(edits: Seq<Change>) -> bool {
    forall|i: int| 0 <= i < edits.len() && (#[trigger] edits[i]) is Delete ==> edits[i]->Delete_0 >= 0
}

proof fn offsets_stay_positive(pos: int, edits: Seq<Change>, k: int)
    requires
        0 <= pos,
        places_are_positive(edits),
        0 <= k <= edits.len(),
    ensures
        clamped_to(pos, edits, k) >= 0,
    decreases k,
{
    if k > 0 {
        offsets_stay_positive(pos, edits, k - 1);
    }
}

proof fn breaks_are_few(t: Seq<char>, i: int)
    requires
        0 <= i <= t.len(),
    ensures
        breaks_before(t, i) <= i,
    decreases i,
{
    if i > 0 {
        breaks_are_few(t, i - 1);
    }
}

proof fn utf16_is_monotone(t: Seq<char>, i: int, k: int)
    requires
        0 <= i <= k <= t.len(),
    ensures
        utf16_before(t, i) <= utf16_before(t, k),
    decreases k - i,
{
    if i < k {
        utf16_is_monotone(t, i, k - 1);
    }
}

/// A text inserted above a diagnostic moves it down by the lines of the text.
pub proof fn insertion_above_moves_lines(t: Seq<char>, line: nat, at: int, new: Seq<char>)
    requires
        line < raw_line_count(t),
        0 <= at <= line_start(t, line),
        t.len() + new.len() <= usize::MAX,
    ensures
        ({
            let moved = moved_to(line_start(t, line), seq![Change::Insert(at, new)], 1);
            &&& moved is Some
            &&& breaks_before(inserted(t, at, new), moved->0) == line + breaks_before(
                new,
                new.len() as int,
            )
        }),
{
    let edits = seq![Change::Insert(at, new)];
    let ls = line_start(t, line);
    line_start_is(t, line);
    assert(moved_to(ls, edits, 0) == Some(ls));
    assert(moved_to(ls, edits, 1) == moved_by(ls, edits[0]));
    line_of_position(t, line, ls);
    breaks_behind_insertion(t, at, new, ls);
}

proof fn breaks_behind_insertion(t: Seq<char>, at: int, new: Seq<char>, i: int)
    requires
        0 <= at <= i <= t.len(),
    ensures
        breaks_before(inserted(t, at, new), i + new.len()) == breaks_before(t, i) + breaks_before(
            new,
            new.len() as int,
        ),
    decreases i - at,
{
    if i == at {
        breaks_in_insertion(t, at, new, new.len() as int);
    } else {
        breaks_behind_insertion(t, at, new, i - 1);
        assert(inserted(t, at, new)[i + new.len() - 1] == t[i - 1]);
    }
}

proof fn breaks_in_insertion(t: Seq<char>, at: int, new: Seq<char>, k: int)
    requires
        0 <= at <= t.len(),
        0 <= k <= new.len(),
    ensures
        breaks_before(inserted(t, at, new), at + k) == breaks_before(t, at) + breaks_before(new, k),
    decreases k,
{
    if k == 0 {
        breaks_of_prefix(t, inserted(t, at, new), at);
    } else {
        breaks_in_insertion(t, at, new, k - 1);
        assert(inserted(t, at, new)[at + k - 1] == new[k - 1]);
    }
}

proof fn breaks_of_prefix(t: Seq<char>, u: Seq<char>, k: int)
    requires
        0 <= k <= t.len(),
        k <= u.len(),
        forall|i: int| 0 <= i < k ==> t[i] == u[i],
    ensures
        breaks_before(t, k) == breaks_before(u, k),
    decreases k,
{
    if k > 0 {
        breaks_of_prefix(t, u, k - 1);
    }
}

fn to_u32(n: usize) -> (u: u32)
    ensures
        u == u32_of(n as int),
{
    if n <= u32::MAX as usize {
        n as u32
    } else {
        u32::MAX
    }
}

fn column_inside(at: usize, start: usize, len: usize) -> (c: usize)
    ensures
        c <= len,
        forall|content: Seq<char>|
            content.len() == len ==> c == #[trigger] column_in(at as int, start as int, content),
{
    let col: usize = at.saturating_sub(start);
    if col < len {
        col
    } else {
        len
    }
}

fn position_in(line: usize, content: &str, col: usize) -> (p: Position)
    requires
        col <= content@.len(),
    ensures
        p == server_position(line as int, content@, col as int),
{
    Position { line: to_u32(line), character: char_col_to_utf16(content, col) }
}

fn smaller(a: usize, b: usize) -> (c: usize)
    ensures
        c == least(a as int, b as int),
{
    if a < b {
        a
    } else {
        b
    }
}

/// A diagnostic that edits have moved; none where its line was taken out.
pub fn project_diagnostic(
    diag: &Diagnostic,
    anchor: &DiagnosticAnchor,
    edits: &Vec<Edit>,
    buffer: &Buffer,
) -> (res: Option<Diagnostic>)
    ensures
        match (res, projected_diag(diag.model(), *anchor, changes(edits@), buffer.text())) {
            (Some(d), Some(m)) => d.model() == m,
            (None, None) => true,
            _ => false,
        },
{
    let size: usize = buffer.len_chars();
    let line_at = match project_offset(anchor.line_start, edits) {
        Some(at) => at,
        None => {
            return None;
        },
    };
    let line: usize = buffer.char_to_line(smaller(line_at, size));
    let start_off: usize = smaller(project_offset_clamped(anchor.start, edits), size);
    let behind: usize = smaller(project_offset_clamped(anchor.end, edits), size);
    let end_off: usize = if behind < start_off {
        start_off
    } else {
        behind
    };
    let line_at: usize = buffer.line_to_char(line);
    let content = buffer.content(line);
    let len: usize = content.as_str().unicode_len();
    let first: usize = column_inside(start_off, line_at, len);
    let start = position_in(line, content.as_str(), first);
    let end_line: usize = buffer.char_to_line(end_off);
    let end = if end_line <= line {
        let last: usize = column_inside(end_off, line_at, len);
        position_in(
            line,
            content.as_str(),
            if last < first {
                first
            } else {
                last
            },
        )
    } else {
        let end_content = buffer.content(end_line);
        let end_start: usize = buffer.line_to_char(end_line);
        let last: usize = column_inside(end_off, end_start, end_content.as_str().unicode_len());
        position_in(end_line, end_content.as_str(), last)
    };
    let mut projected = diag.copy();
    projected.range = LspRange { start, end };
    Some(projected)
}

/// How the cached diagnostics map onto the current buffer.
pub ghost enum Projection {
    /// Their own lines are right, or nothing better is known.
    RawLines,
    /// These edits have moved them.
    Replay(Seq<DiagnosticAnchor>, Seq<Change>),
    /// The edits are not known any more; their lines follow from where they
    /// were placed.
    AnchorOffsets(Seq<DiagnosticAnchor>),
}

pub open spec fn projection_of(e: Ed) -> Projection {
    match e.lsp.anchors {
        None => Projection::RawLines,
        Some(a) => {
            let log = e.cur().log;
            if a.list.len() != e.lsp.diags.len() {
                Projection::RawLines
            } else if a.version > log.len() || log.len() - a.version > DEFAULT_CAPACITY {
                Projection::AnchorOffsets(a.list)
            } else if a.version == log.len() {
                Projection::RawLines
            } else {
                Projection::Replay(a.list, log.skip(a.version as int))
            }
        },
    }
}

/// A line moved by a distance, inside what a line number can be.
pub open spec fn shifted_line(line: u32, delta: int) -> u32 {
    if line + delta < 0 {
        0
    } else {
        u32_of(line + delta)
    }
}

/// A diagnostic on the line that its anchor's place now has.
pub open spec fn relined_diag(d: Diag, a: DiagnosticAnchor, t: Seq<char>) -> Diag {
    let delta = breaks_before(t, least(a.line_start as int, t.len() as int))
        - d.range.start.line;
    Diag {
        range: LspRange {
            start: Position { line: shifted_line(d.range.start.line, delta), ..d.range.start },
            end: Position { line: shifted_line(d.range.end.line, delta), ..d.range.end },
        },
        ..d
    }
}

/// The first `k` diagnostics where edits have moved them to.
pub open spec fn replayed_diags(
    list: Seq<Diag>,
    anchors: Seq<DiagnosticAnchor>,
    edits: Seq<Change>,
    t: Seq<char>,
    k: int,
) -> Seq<Diag>
    decreases k,
{
    if k <= 0 || k > list.len() {
        Seq::empty()
    } else {
        let before = replayed_diags(list, anchors, edits, t, k - 1);
        match projected_diag(list[k - 1], anchors[k - 1], edits, t) {
            Some(d) => before.push(d),
            None => before,
        }
    }
}

/// The diagnostics as they map onto the current buffer.
pub open spec fn projected_list(e: Ed) -> Seq<Diag> {
    let t = e.cur().text;
    match projection_of(e) {
        Projection::RawLines => e.lsp.diags,
        Projection::Replay(anchors, edits) => replayed_diags(
            e.lsp.diags,
            anchors,
            edits,
            t,
            e.lsp.diags.len() as int,
        ),
        Projection::AnchorOffsets(anchors) => Seq::new(
            e.lsp.diags.len(),
            |i: int| relined_diag(e.lsp.diags[i], anchors[i], t),
        ),
    }
}

/// The cached diagnostics are of another file.
pub open spec fn cache_stale(e: Ed) -> bool {
    e.lsp.diags_path != e.cur().path
}

/// The diagnostics that show on a line of the current buffer.
pub open spec fn shown_on(e: Ed, line: int) -> Seq<Diag> {
    if cache_stale(e) {
        Seq::empty()
    } else if projection_of(e) is RawLines {
        covering_of(e.lsp.diags, line)
    } else {
        let all = projected_list(e);
        covering_of(by_line(all, all.len() as int), line)
    }
}

/// Whether a diagnostic is away from a column of a line, and how far.
pub open spec fn distance_of(d: Diag, line: int, text: Seq<char>, col: int) -> (bool, int) {
    let (start, end) = char_cover(d.range, line, text);
    (
        !(start <= col < end || (start == end && col == start)),
        if col < start {
            start - col
        } else if col > end {
            col - end
        } else {
            0
        },
    )
}

pub open spec fn nearer(a: (bool, int), b: (bool, int)) -> bool {
    (!a.0 && b.0) || (a.0 == b.0 && a.1 < b.1)
}

/// The first of the nearest of the first `k` diagnostics to a column.
pub open spec fn nearest_of(list: Seq<Diag>, line: int, text: Seq<char>, col: int, k: int) -> int
    decreases k,
{
    if k <= 1 || k > list.len() {
        0
    } else {
        let best = nearest_of(list, line, text, col, k - 1);
        if nearer(distance_of(list[k - 1], line, text, col), distance_of(list[best], line, text, col)) {
            k - 1
        } else {
            best
        }
    }
}

/// The diagnostic at the cursor: the nearest of those on its line.
pub open spec fn at_cursor(e: Ed) -> Option<Diag> {
    let line = e.cur().line();
    let list = shown_on(e, line);
    if list.len() == 0 {
        None
    } else {
        Some(list[nearest_of(list, line, e.cur().here(), e.cur().char_col(), list.len() as int)])
    }
}

/// No diagnostic of the line is nearer to the cursor than the one found, and
/// one that contains the cursor comes before any that does not.
pub proof fn nearest_is_nearest(list: Seq<Diag>, line: int, text: Seq<char>, col: int, k: int, i: int)
    requires
        0 <= i < k <= list.len(),
    ensures
        0 <= nearest_of(list, line, text, col, k) < k,
        !nearer(
            distance_of(list[i], line, text, col),
            distance_of(list[nearest_of(list, line, text, col, k)], line, text, col),
        ),
    decreases k,
{
    if k > 1 {
        if i < k - 1 {
            nearest_is_nearest(list, line, text, col, k - 1, i);
        } else {
            nearest_is_nearest(list, line, text, col, k - 1, 0);
        }
    }
}

fn distance_to(d: &Diagnostic, line: usize, text: &str, col: usize) -> (res: (bool, usize))
    requires
        covers(d.range, line as int),
    ensures
        (res.0, res.1 as int) == distance_of(d.model(), line as int, text@, col as int),
{
    match diagnostic_char_range(d, line, text) {
        Some(range) => {
            let contains = (range.start <= col && col < range.end) || (range.start == range.end
                && col == range.start);
            let distance: usize = if col < range.start {
                range.start - col
            } else {
                col.saturating_sub(range.end)
            };
            (!contains, distance)
        },
        None => (true, 0),
    }
}

/// What a refresh of the diagnostics brought.
#[derive(Debug)]
pub struct DiagnosticResult {
    pub file_path: String,
    pub buffer_version: usize,
    pub lsp_version: i32,
    pub lsp_sent_version: i32,
    pub diagnostics: Vec<Diagnostic>,
    pub count: (usize, usize, usize, usize),
    /// The server had not yet received the newest content.
    pub deferred: bool,
}

/// What a refresh of the diagnostics is for.
#[derive(Debug)]
pub struct DiagnosticRequest {
    pub file_path: String,
    pub buffer_version: usize,
}

/// What a refresh brought, from what the server's side knows. Diagnostics of
/// an older content are not taken.
pub fn diagnostic_result(
    request: DiagnosticRequest,
    lsp_version: i32,
    lsp_sent_version: i32,
    diagnostics: Vec<Diagnostic>,
) -> (r: DiagnosticResult)
    ensures
        r.file_path@ == request.file_path@,
        r.buffer_version == request.buffer_version,
        r.lsp_version == lsp_version,
        r.lsp_sent_version == lsp_sent_version,
        r.deferred == (lsp_sent_version < lsp_version),
        diags(r.diagnostics@) == if r.deferred {
            Seq::empty()
        } else {
            diags(diagnostics@)
        },
        (r.count.0 as int, r.count.1 as int, r.count.2 as int, r.count.3 as int) == counts_of(
            diags(r.diagnostics@),
            r.diagnostics.len() as int,
        ),
{
    let deferred = lsp_sent_version < lsp_version;
    let diagnostics = if deferred {
        Vec::new()
    } else {
        diagnostics
    };
    proof {
        if deferred {
            assert(diags(diagnostics@) =~= Seq::empty());
        }
    }
    let count = diagnostic_counts(&diagnostics);
    DiagnosticResult {
        file_path: request.file_path,
        buffer_version: request.buffer_version,
        lsp_version,
        lsp_sent_version,
        diagnostics,
        count,
        deferred,
    }
}

/// The badge after the counts changed: it is shown again where they differ.
pub open spec fn badge_after(badge: (bool, (usize, usize)), count: (usize, usize)) -> (
    bool,
    (usize, usize),
) {
    if badge.1 == count {
        badge
    } else {
        (false, count)
    }
}

/// The editor after a refresh: its diagnostics replace the cached ones and
/// are anchored in the text as it is now.
pub open spec fn refreshed(e: Ed, r: DiagnosticResult) -> Ed {
    let fresh = e.cur().log.len() == r.buffer_version;
    let list = valid_diags(diags(r.diagnostics@), r.diagnostics@.len() as int);
    Ed {
        lsp: Lsp {
            version: if fresh {
                r.lsp_version
            } else {
                e.lsp.version
            },
            sent_version: if fresh {
                r.lsp_sent_version
            } else {
                e.lsp.sent_version
            },
            count: r.count,
            diags: list,
            diags_path: Some(r.file_path@),
            anchors: Some(
                Anchors {
                    list: list.map_values(|d: Diag| anchor_of(e.cur().text, d.range)),
                    version: e.cur().log.len() as u64,
                },
            ),
            stale: e.lsp.stale || !fresh,
            ..e.lsp
        },
        ui: Ui { badge: badge_after(e.ui.badge, (r.count.0, r.count.1)), ..e.ui },
        ..e
    }
}

/// A refresh that is taken: the server had the newest content, and it is of
/// the file that is shown.
pub open spec fn takes(e: Ed, r: DiagnosticResult) -> bool {
    !r.deferred && e.cur().path == Some(r.file_path@)
}

/// The text of the window that shows a diagnostic.
pub open spec fn float_text(d: Diag) -> Seq<char> {
    let label = match d.severity {
        Some(DiagnosticSeverity::Error) => "Error"@,
        Some(DiagnosticSeverity::Warning) => "Warning"@,
        Some(DiagnosticSeverity::Information) => "Info"@,
        Some(DiagnosticSeverity::Hint) => "Hint"@,
        _ => "Diagnostic"@,
    };
    let message = "**"@ + label + "**: "@ + d.message;
    let message = match d.source {
        Some(source) => message + "\n\n`"@ + source + "`"@,
        None => message,
    };
    match d.code {
        Some(code) => message + " `"@ + code + "`"@,
        None => message,
    }
}

fn float_message(d: &Diagnostic) -> (message: String)
    ensures
        message@ == float_text(d.model()),
{
    let label = match d.severity {
        Some(DiagnosticSeverity::Error) => "Error",
        Some(DiagnosticSeverity::Warning) => "Warning",
        Some(DiagnosticSeverity::Information) => "Info",
        Some(DiagnosticSeverity::Hint) => "Hint",
        _ => "Diagnostic",
    };
    let mut message = "**".to_owned();
    message.append(label);
    message.append("**: ");
    message.append(d.message.as_str());
    if let Some(source) = &d.source {
        message.append("\n\n`");
        message.append(source.as_str());
        message.append("`");
    }
    if let Some(code) = &d.code {
        message.append(" `");
        message.append(code.as_str());
        message.append("`");
    }
    message
}

/// The editor shows a message of a server.
pub open spec fn with_lsp_status(e: Ed, text: Seq<char>) -> Ed {
    Ed { lsp: Lsp { status: text, ..e.lsp }, ui: Ui { status: text, ..e.ui }, ..e }
}

/// The editor after the diagnostic at the cursor was asked for.
pub open spec fn float_shown(e: Ed) -> Ed {
    match at_cursor(e) {
        None => with_lsp_status(e, "No diagnostics at cursor"@),
        Some(d) => {
            let f = with_lsp_status(e, Seq::empty());
            Ed {
                lsp: Lsp {
                    hover: Some(float_text(d)),
                    hover_scroll: (0, 0),
                    hover_position: Some((e.cur().line() as usize, e.cur().col() as usize)),
                    hover_type: HoverContentType::Diagnostic,
                    ..f.lsp
                },
                input: InputState { mode: Mode::HoverPreview, ..e.input },
                ..f
            }
        },
    }
}

impl<B: ClipboardBackend> Editor<B> {
    /// Shows a message of a server.
    pub fn set_lsp_status(&mut self, text: &str)
        ensures
            final(self).model() == with_lsp_status(old(self).model(), text@),
            final(self).registers == old(self).registers,
            final(self).options == old(self).options,
    {
        self.lsp.status = text.to_owned();
        self.panels.status_message = text.to_owned();
    }

    /// How many errors, warnings, information and hints the file has.
    pub fn get_diagnostic_count(&self) -> (res: (usize, usize, usize, usize))
        ensures
            res == self.model().lsp.count,
    {
        self.lsp.diagnostic_count
    }

    /// What to ask the server for, to refresh the diagnostics of the current
    /// file. Without a server, or a file that it can be asked about, there are
    /// none, and nothing is asked.
    pub fn spawn_diagnostic_cache_refresh(&mut self, has_server: bool, has_uri: bool) -> (res: Option<
        DiagnosticRequest,
    >)
        requires
            old(self).wf(),
        ensures
            final(self).wf(),
            final(self).registers == old(self).registers,
            match res {
                Some(r) => has_server && has_uri && old(self).cur().path == Some(r.file_path@)
                    && r.buffer_version == old(self).cur().log.len() && final(self).model()
                    == old(self).model(),
                None => (!has_server || !has_uri || old(self).cur().path is None)
                    && final(self).model() == (Ed {
                    lsp: Lsp {
                        diags: Seq::empty(),
                        anchors: None,
                        count: (0, 0, 0, 0),
                        diags_path: None,
                        ..old(self).model().lsp
                    },
                    ..old(self).model()
                }),
            },
    {
        let path = match self.buffer().file_path() {
            Some(path) => Some(path.to_owned()),
            None => None,
        };
        match path {
            Some(file_path) if has_server && has_uri => Some(
                DiagnosticRequest { file_path, buffer_version: self.buffer().version() },
            ),
            _ => {
                self.lsp.clear_current_file_diagnostics();
                self.lsp.diagnostic_count = (0, 0, 0, 0);
                self.lsp.diagnostics_file_path = None;
                None
            },
        }
    }

    /// The counts of the badge changed.
    pub fn on_diagnostic_counts_changed(&mut self, errors: usize, warnings: usize)
        ensures
            final(self).model() == (Ed {
                ui: Ui {
                    badge: badge_after(old(self).model().ui.badge, (errors, warnings)),
                    ..old(self).model().ui
                },
                ..old(self).model()
            }),
            final(self).registers == old(self).registers,
            final(self).options == old(self).options,
    {
        let (e, w) = self.panels.diagnostic_badge_last_count;
        if e != errors || w != warnings {
            self.panels.diagnostic_badge_dismissed = false;
            self.panels.diagnostic_badge_last_count = (errors, warnings);
        }
    }

    /// Takes what a refresh brought, if it is there; whether it was taken. One
    /// that failed, came too early or is of another file is asked for again.
    pub fn poll_pending_diagnostic_refresh_response(
        &mut self,
        response: Option<Result<DiagnosticResult, String>>,
    ) -> (taken: bool)
        requires
            old(self).wf(),
        ensures
            final(self).wf(),
            final(self).registers == old(self).registers,
            match response {
                None => !taken && final(self).model() == old(self).model(),
                Some(Ok(r)) if takes(old(self).model(), r) => taken && final(self).model()
                    == refreshed(old(self).model(), r),
                Some(_) => !taken && final(self).model() == (Ed {
                    lsp: Lsp { stale: true, ..old(self).model().lsp },
                    ..old(self).model()
                }),
            },
    {
        let result = match response {
            None => {
                return false;
            },
            Some(Err(_)) => {
                self.request_diagnostics_refresh();
                return false;
            },
            Some(Ok(result)) => result,
        };
        let here = match self.buffer().file_path() {
            Some(path) => same_text(path, result.file_path.as_str()),
            None => false,
        };
        if result.deferred || !here {
            self.request_diagnostics_refresh();
            return false;
        }
        let version: usize = self.buffer().version();
        if version == result.buffer_version {
            self.lsp.current_file_lsp_version = result.lsp_version;
            self.lsp.current_file_lsp_sent_version = result.lsp_sent_version;
        }
        self.lsp.diagnostic_count = result.count;
        self.on_diagnostic_counts_changed(result.count.0, result.count.1);
        self.lsp.set_current_file_diagnostics(result.diagnostics);
        self.lsp.diagnostics_file_path = Some(result.file_path);
        proof {
            assert(self.model().bufs[self.current as int]
                == self.buffers@[self.current as int].model());
        }
        self.lsp.anchor_current_file_diagnostics(&self.buffers[self.current], version as u64);
        if version != result.buffer_version {
            self.request_diagnostics_refresh();
        }
        true
    }

    /// Whether the cached diagnostics are of another file. Edits do not make
    /// them stale.
    pub fn diagnostics_cache_stale(&self) -> (res: bool)
        requires
            self.model().wf(),
        ensures
            res == cache_stale(self.model()),
    {
        match (&self.lsp.diagnostics_file_path, self.buffer().file_path()) {
            (Some(a), Some(b)) => !same_text(a.as_str(), b),
            (None, None) => false,
            _ => true,
        }
    }

    fn diagnostics_need_projection(&self) -> (res: bool)
        requires
            self.model().wf(),
        ensures
            res == !(projection_of(self.model()) is RawLines),
    {
        match &self.lsp.diagnostic_anchors {
            None => false,
            Some(a) => {
                if a.anchors.len() != self.lsp.current_file_diagnostics.len() {
                    return false;
                }
                a.source_version != self.buffer().version() as u64
            },
        }
    }

    /// The diagnostics where edits have moved them to, by their lines.
    pub fn project_diagnostics(&self) -> (p: ProjectedDiagnostics)
        requires
            self.model().wf(),
        ensures
            p.view() == if cache_stale(self.model()) {
                Seq::empty()
            } else {
                by_line(
                    projected_list(self.model()),
                    projected_list(self.model()).len() as int,
                )
            },
    {
        let ghost e = self.model();
        let mut out: Vec<Diagnostic> = Vec::new();
        proof {
            assert(diags(out@) =~= Seq::empty());
            assert(by_line(Seq::empty(), 0) =~= Seq::<Diag>::empty());
        }
        if self.diagnostics_cache_stale() {
            return ProjectedDiagnostics::new(out);
        }
        let list = &self.lsp.current_file_diagnostics;
        let ghost all = diags(list@);
        let need = self.diagnostics_need_projection();
        let mut k: usize = 0;
        if let (true, Some(a)) = (need, &self.lsp.diagnostic_anchors) {
            match self.buffer().edits_since(a.source_version) {
                Some(edits) => {
                    let ghost log = changes(edits@);
                    while k < list.len()
                        invariant
                            k <= list.len() == a.anchors.len(),
                            all == diags(list@),
                            log == changes(edits@),
                            self.model() == e,
                            e.wf(),
                            diags(out@) == replayed_diags(
                                all,
                                a.anchors@,
                                log,
                                e.cur().text,
                                k as int,
                            ),
                        decreases list.len() - k,
                    {
                        proof {
                            assert(all[k as int] == list@[k as int].model());
                        }
                        let ghost before = diags(out@);
                        let d = project_diagnostic(&list[k], &a.anchors[k], &edits, self.buffer());
                        if let Some(d) = d {
                            out.push(d);
                            proof {
                                assert(diags(out@) =~= before.push(d.model()));
                            }
                        }
                        k += 1;
                    }
                    proof {
                        assert(projection_of(e) == Projection::Replay(a.anchors@, log));
                    }
                },
                None => {
                    while k < list.len()
                        invariant
                            k <= list.len() == a.anchors.len(),
                            all == diags(list@),
                            self.model() == e,
                            e.wf(),
                            diags(out@) == Seq::new(
                                k as nat,
                                |i: int| relined_diag(all[i], a.anchors@[i], e.cur().text),
                            ),
                        decreases list.len() - k,
                    {
                        proof {
                            assert(all[k as int] == list@[k as int].model());
                        }
                        let ghost before = diags(out@);
                        let d = reline(&list[k], &a.anchors[k], self.buffer());
                        out.push(d);
                        k += 1;
                        proof {
                            assert(diags(out@) =~= before.push(d.model()));
                            assert(diags(out@) =~= Seq::new(
                                k as nat,
                                |i: int| relined_diag(all[i], a.anchors@[i], e.cur().text),
                            ));
                        }
                    }
                    proof {
                        assert(diags(out@) =~= projected_list(e));
                    }
                },
            }
        } else {
            while k < list.len()
                invariant
                    k <= list.len(),
                    all == diags(list@),
                    diags(out@) == all.take(k as int),
                decreases list.len() - k,
            {
                let ghost before = diags(out@);
                let d = list[k].copy();
                out.push(d);
                k += 1;
                proof {
                    assert(diags(out@) =~= before.push(d.model()));
                    assert(diags(out@) =~= all.take(k as int));
                }
            }
            proof {
                assert(all.take(k as int) =~= all);
            }
        }
        ProjectedDiagnostics::new(out)
    }

    /// The diagnostics that show on a line.
    pub fn diagnostics_for_line(&self, line: usize) -> (out: Vec<Diagnostic>)
        requires
            self.model().wf(),
        ensures
            diags(out@) == shown_on(self.model(), line as int),
    {
        if self.diagnostics_cache_stale() {
            let out: Vec<Diagnostic> = Vec::new();
            proof {
                assert(diags(out@) =~= Seq::empty());
            }
            return out;
        }
        if self.diagnostics_need_projection() {
            return self.project_diagnostics().covering_line(line);
        }
        self.lsp.diagnostics_covering_line(line)
    }

    pub fn has_diagnostics_on_line(&self, line: usize) -> (res: bool)
        requires
            self.model().wf(),
        ensures
            res == (shown_on(self.model(), line as int).len() > 0),
    {
        let out = self.diagnostics_for_line(line);
        proof {
            assert(diags(out@).len() == out.len());
        }
        out.len() > 0
    }

    /// What the diagnostic at the cursor says.
    pub fn current_diagnostic(&self) -> (res: Option<String>)
        requires
            self.model().wf(),
        ensures
            match (res, at_cursor(self.model())) {
                (Some(s), Some(d)) => s@ == d.message,
                (None, None) => true,
                _ => false,
            },
    {
        match self.diagnostic_at_cursor() {
            Some(d) => Some(d.message),
            None => None,
        }
    }

    /// The diagnostic at the cursor: the one under it, or else the nearest on
    /// its line.
    pub fn diagnostic_at_cursor(&self) -> (res: Option<Diagnostic>)
        requires
            self.model().wf(),
        ensures
            match (res, at_cursor(self.model())) {
                (Some(d), Some(m)) => d.model() == m,
                (None, None) => true,
                _ => false,
            },
    {
        let line: usize = self.buffer().cursor().line();
        let list = self.diagnostics_for_line(line);
        let ghost all = diags(list@);
        proof {
            assert(all.len() == list.len());
        }
        if list.len() == 0 {
            return None;
        }
        let text = self.buffer().content(line);
        let col: usize = self.buffer().cursor_char_col().0;
        proof {
            shown_cover(self.model(), line as int);
            assert(all[0] == list@[0].model());
        }
        let mut best: usize = 0;
        let mut least = distance_to(&list[0], line, text.as_str(), col);
        let mut k: usize = 1;
        while k < list.len()
            invariant
                1 <= k <= list.len(),
                best < k,
                all == diags(list@),
                forall|i: int| 0 <= i < all.len() ==> covers((#[trigger] all[i]).range, line as int),
                best == nearest_of(all, line as int, text@, col as int, k as int),
                (least.0, least.1 as int) == distance_of(
                    all[best as int],
                    line as int,
                    text@,
                    col as int,
                ),
            decreases list.len() - k,
        {
            proof {
                assert(all[k as int] == list@[k as int].model());
            }
            let here = distance_to(&list[k], line, text.as_str(), col);
            if (!here.0 && least.0) || (here.0 == least.0 && here.1 < least.1) {
                best = k;
                least = here;
            }
            k += 1;
        }
        Some(list[best].copy())
    }

    /// How many diagnostics the file has.
    pub fn diagnostic_count(&self) -> (n: usize)
        requires
            self.model().wf(),
        ensures
            n == if cache_stale(self.model()) {
                0
            } else {
                self.model().lsp.diags.len()
            },
    {
        if self.diagnostics_cache_stale() {
            return 0;
        }
        self.lsp.current_file_diagnostics.len()
    }

    /// All diagnostics of the file.
    pub fn all_diagnostics(&self) -> (out: Vec<Diagnostic>)
        requires
            self.model().wf(),
        ensures
            diags(out@) == if cache_stale(self.model()) {
                Seq::empty()
            } else {
                self.model().lsp.diags
            },
    {
        let mut out: Vec<Diagnostic> = Vec::new();
        proof {
            assert(diags(out@) =~= Seq::empty());
        }
        if self.diagnostics_cache_stale() {
            return out;
        }
        let list = &self.lsp.current_file_diagnostics;
        let ghost all = diags(list@);
        let mut k: usize = 0;
        while k < list.len()
            invariant
                k <= list.len(),
                all == diags(list@),
                diags(out@) == all.take(k as int),
            decreases list.len() - k,
        {
            let ghost before = diags(out@);
            let d = list[k].copy();
            out.push(d);
            k += 1;
            proof {
                assert(diags(out@) =~= before.push(d.model()));
                assert(diags(out@) =~= all.take(k as int));
            }
        }
        proof {
            assert(all.take(k as int) =~= all);
        }
        out
    }

    /// Shows the diagnostic at the cursor in a window.
    pub fn show_diagnostic_at_cursor(&mut self)
        requires
            old(self).wf(),
        ensures
            final(self).wf(),
            final(self).model() == float_shown(old(self).model()),
            final(self).registers == old(self).registers,
    {
        let line: usize = self.buffer().cursor().line();
        let col: usize = self.buffer().cursor().col().0;
        let d = match self.diagnostic_at_cursor() {
            Some(d) => d,
            None => {
                self.set_lsp_status("No diagnostics at cursor");
                return;
            },
        };
        self.lsp.hover_info = Some(float_message(&d));
        self.lsp.hover_scroll = 0;
        self.lsp.hover_h_scroll = 0;
        self.lsp.hover_position = Some((line, col));
        self.lsp.hover_content_type = HoverContentType::Diagnostic;
        self.set_lsp_status("");
        proof {
            reveal_strlit("");
            assert(""@ =~= Seq::empty());
        }
        self.set_mode(Mode::HoverPreview);
    }
}

fn shift_line(line: u32, from: usize, to: u32) -> (res: u32)
    ensures
        res == shifted_line(line, from - to),
{
    if from >= to as usize {
        let up: usize = from - to as usize;
        if up > (u32::MAX - line) as usize {
            u32::MAX
        } else {
            line + up as u32
        }
    } else {
        let down: u32 = to - from as u32;
        line.saturating_sub(down)
    }
}

/// A diagnostic on the line that its anchor's place now has.
fn reline(d: &Diagnostic, a: &DiagnosticAnchor, buffer: &Buffer) -> (out: Diagnostic)
    ensures
        out.model() == relined_diag(d.model(), *a, buffer.text()),
{
    let line: usize = buffer.char_to_line(smaller(a.line_start, buffer.len_chars()));
    let mut out = d.copy();
    let was: u32 = d.range.start.line;
    out.range.start.line = shift_line(d.range.start.line, line, was);
    out.range.end.line = shift_line(d.range.end.line, line, was);
    out
}

proof fn covering_cover(list: Seq<Diag>, line: int)
    ensures
        forall|i: int|
            0 <= i < covering_of(list, line).len() ==> covers(
                (#[trigger] covering_of(list, line)[i]).range,
                line,
            ),
{
    let n = list.len() as int;
    assert forall|i: int| 0 <= i < covering_of(list, line).len() implies covers(
        (#[trigger] covering_of(list, line)[i]).range,
        line,
    ) by {
        let d = covering_of(list, line)[i];
        assert(covering_of(list, line).contains(d));
        crate::editor::lsp_state::covering_is_exact(list, n, line, d);
    }
}

/// Every diagnostic that shows on a line covers it.
pub proof fn shown_cover(e: Ed, line: int)
    ensures
        forall|i: int|
            0 <= i < shown_on(e, line).len() ==> covers(
                (#[trigger] shown_on(e, line)[i]).range,
                line,
            ),
{
    let all = projected_list(e);
    covering_cover(e.lsp.diags, line);
    covering_cover(by_line(all, all.len() as int), line);
}

} // verus!
