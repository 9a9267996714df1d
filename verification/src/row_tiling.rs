//! The visual rows of a line cover it without gaps, and are full but for the
//! last.
use crate::display::cluster_width;
use crate::line_layout::{
    cluster_span, column_in, filled, first_row_behind, inline_cells, max_of, plain_row,
    rich_position, rich_rows, run_cells, run_flat, runs_cells, runs_cells_grow, shifted,
    stretched_flat, with_clusters, with_piece, with_rest, with_run, with_runs, Build, FragmentPlan,
    IndexedLineLayout, LayoutFragmentKind, Row, Run, Span,
};
use crate::text_index::{cells_at, display_of};
use crate::unicode::{chars_before, graphemes_of};
use vstd::prelude::*;

verus! {

/// Fragments that follow each other from the start of a row up to a column,
/// and from one column of the flat line up to another.
pub open spec fn adjoining(
    pieces: Seq<FragmentPlan>,
    start: int,
    column: int,
    flat: int,
) -> bool {
    if pieces.len() == 0 {
        column == 0 && flat == start
    } else {
        &&& pieces[0].row_column == 0
        &&& pieces[0].display_start == start
        &&& forall|k: int|
            0 <= k < pieces.len() - 1 ==> (#[trigger] pieces[k]).row_column + pieces[k].cells
                == pieces[k + 1].row_column && pieces[k].display_start + pieces[k].cells
                == pieces[k + 1].display_start
        &&& pieces.last().row_column + pieces.last().cells == column
        &&& pieces.last().display_start + pieces.last().cells == flat
        &&& forall|k: int| 0 <= k < pieces.len() ==> !((#[trigger] pieces[k]).kind is Padding)
    }
}

/// The column behind the last fragment.
pub open spec fn end_column(pieces: Seq<FragmentPlan>) -> int {
    if pieces.len() == 0 {
        0
    } else {
        pieces.last().row_column + pieces.last().cells
    }
}

/// A row is full: its fragments follow each other up to its width, where
/// blanks that are no part of the line may fill its end. Only a glyph that is
/// wider than the row goes beyond.
pub open spec fn full(row: Row, width: int) -> bool {
    &&& row.pieces.len() > 0
    &&& if row.pieces.last().kind is Padding {
        &&& adjoining(
            row.pieces.drop_last(),
            row.start,
            row.pieces.last().row_column as int,
            row.end,
        )
        &&& row.pieces.last().display_start == row.end
        &&& row.pieces.last().cells > 0
        &&& end_column(row.pieces) == width
    } else {
        &&& adjoining(row.pieces, row.start, end_column(row.pieces), row.end)
        &&& end_column(row.pieces) == width || (width == 1 && end_column(row.pieces) == 2)
    }
}

/// Rows under construction that cover what was laid out so far.
spec fn tidy(b: Build, width: int) -> bool {
    &&& width > 0
    &&& 0 <= b.start <= b.flat
    &&& b.done.len() == 0 ==> b.start == 0
    &&& b.done.len() > 0 ==> b.done[0].start == 0 && b.done.last().end == b.start
    &&& forall|i: int|
        0 <= i < b.done.len() - 1 ==> (#[trigger] b.done[i]).end == b.done[i + 1].start
    &&& forall|i: int| 0 <= i < b.done.len() ==> full(#[trigger] b.done[i], width)
    &&& adjoining(b.pieces, b.start, b.column, b.flat)
    &&& 0 <= b.column
    &&& b.column <= width || (width == 1 && b.column == 2)
}

proof fn piece_adjoins(
    pieces: Seq<FragmentPlan>,
    start: int,
    column: int,
    flat: int,
    p: FragmentPlan,
)
    requires
        adjoining(pieces, start, column, flat),
        p.row_column == column,
        p.display_start == flat,
        !(p.kind is Padding),
        column + p.cells <= usize::MAX,
    ensures
        adjoining(with_piece(pieces, p), start, column + p.cells, flat + p.cells),
{
    let after = with_piece(pieces, p);
    if pieces.len() > 0 {
        let n = pieces.len() as int;
        assert(pieces.last() == pieces[n - 1]);
        assert forall|k: int| 0 <= k < after.len() - 1 implies (#[trigger] after[k]).row_column
            + after[k].cells == after[k + 1].row_column && after[k].display_start + after[k].cells
            == after[k + 1].display_start by {
            assert(after[k] == pieces[k]);
            if k + 1 < n - 1 {
                assert(after[k + 1] == pieces[k + 1]);
            }
        }
        assert forall|k: int| 0 <= k < after.len() implies !((#[trigger] after[k]).kind is Padding) by {
            if k < n - 1 {
                assert(after[k] == pieces[k]);
            }
            assert(!(pieces[n - 1].kind is Padding));
        }
    }
}

proof fn placing_keeps(
    b: Build,
    width: int,
    cells: int,
    source: Option<Span>,
    kind: LayoutFragmentKind,
    own: bool,
)
    requires
        tidy(b, width),
        cells >= 0,
        b.column + cells <= width || (width == 1 && b.column == 0 && cells == 2),
        width <= usize::MAX,
        b.flat + cells <= usize::MAX,
        !(kind is Padding),
    ensures
        tidy(b.placed(cells, source, kind, own), width),
{
    let p = FragmentPlan {
        cells: cells as usize,
        row_column: b.column as usize,
        display_start: b.flat as usize,
        source,
        kind,
    };
    piece_adjoins(b.pieces, b.start, b.column, b.flat, p);
}

proof fn next_row_keeps(b: Build, width: int)
    requires
        tidy(b, width),
        b.column >= width,
    ensures
        tidy(b.next_row(), width),
        b.next_row().column == 0,
{
    let row = Row { start: b.start, end: b.flat, pieces: b.pieces };
    assert(!(b.pieces[b.pieces.len() - 1].kind is Padding));
    assert(full(row, width));
    row_is_added(b, b.next_row(), row, width);
}

proof fn row_is_added(b: Build, after: Build, row: Row, width: int)
    requires
        tidy(b, width),
        full(row, width),
        row.start == b.start,
        row.end == b.flat,
        after == b.next_row() || after == b.padded(width).next_row(),
        after.done == b.done.push(row),
    ensures
        tidy(after, width),
{
    let n = b.done.len() as int;
    assert forall|i: int| 0 <= i < after.done.len() - 1 implies (#[trigger] after.done[i]).end
        == after.done[i + 1].start by {
        assert(after.done[i] == b.done[i]);
        if i + 1 < n {
            assert(after.done[i + 1] == b.done[i + 1]);
        }
    }
    assert forall|i: int| 0 <= i < after.done.len() implies full(#[trigger] after.done[i], width) by {
        if i < n {
            assert(after.done[i] == b.done[i]);
        }
    }
    if n > 0 {
        assert(after.done[0] == b.done[0]);
    }
}

proof fn padding_keeps(b: Build, width: int)
    requires
        tidy(b, width),
        width <= usize::MAX,
        b.flat <= usize::MAX,
    ensures
        tidy(b.padded(width).next_row(), width),
        b.padded(width).next_row().column == 0,
        b.padded(width).next_row().flat == b.flat,
{
    if b.column < width {
        let p = FragmentPlan {
            cells: (width - b.column) as usize,
            row_column: b.column as usize,
            display_start: b.flat as usize,
            source: None,
            kind: LayoutFragmentKind::Padding,
        };
        let row = Row { start: b.start, end: b.flat, pieces: b.pieces.push(p) };
        assert(row.pieces.drop_last() =~= b.pieces);
        assert(full(row, width));
        row_is_added(b, b.padded(width).next_row(), row, width);
    } else {
        next_row_keeps(b, width);
    }
}

proof fn atomic_keeps(
    b: Build,
    width: int,
    cells: int,
    source: Option<Span>,
    kind: LayoutFragmentKind,
    own: bool,
)
    requires
        tidy(b, width),
        0 <= cells <= 2,
        width <= usize::MAX,
        b.flat + cells <= usize::MAX,
        !(kind is Padding),
    ensures
        tidy(b.atomic(width, cells, source, kind, own), width),
{
    if b.column + cells > width {
        padding_keeps(b, width);
        placing_keeps(b.padded(width).next_row(), width, cells, source, kind, own);
    } else {
        placing_keeps(b, width, cells, source, kind, own);
    }
}

proof fn stretching_keeps(
    b: Build,
    width: int,
    cells: int,
    source: Option<Span>,
    kind: LayoutFragmentKind,
    own: bool,
)
    requires
        tidy(b, width),
        cells >= 0,
        width <= usize::MAX,
        b.flat + cells <= usize::MAX,
        !(kind is Padding),
    ensures
        tidy(b.stretched(width, cells, source, kind, own), width),
    decreases cells,
{
    if cells > 0 {
        let c = if b.column >= width {
            next_row_keeps(b, width);
            b.next_row()
        } else {
            b
        };
        let room = width - c.column;
        let take = if cells < room {
            cells
        } else {
            room
        };
        placing_keeps(c, width, take, source, kind, own);
        stretching_keeps(
            c.placed(take, source, kind, own),
            width,
            cells - take,
            source,
            shifted(kind, take),
            own,
        );
    }
}

proof fn clusters_keep(b: Build, width: int, clusters: Seq<Seq<char>>, k: int, index: usize)
    requires
        tidy(b, width),
        0 <= k <= clusters.len(),
        width <= usize::MAX,
        b.flat + inline_cells(clusters, k) <= usize::MAX,
    ensures
        tidy(with_clusters(b, width, clusters, k, index), width),
        with_clusters(b, width, clusters, k, index).flat == b.flat + inline_cells(clusters, k),
    decreases k,
{
    if k > 0 {
        clusters_keep(b, width, clusters, k - 1, index);
        let before = with_clusters(b, width, clusters, k - 1, index);
        let cells = cluster_width(clusters[k - 1]) as int;
        let kind = LayoutFragmentKind::InlineDecoration {
            index,
            cell_offset: inline_cells(clusters, k - 1) as usize,
        };
        if cells <= 1 {
            stretching_keeps(before, width, cells, None, kind, false);
            stretched_flat(before, width, cells, None, kind, false);
        } else {
            atomic_keeps(before, width, cells, None, kind, false);
        }
    }
}

proof fn run_keeps(b: Build, width: int, run: Run)
    requires
        tidy(b, width),
        width <= usize::MAX,
        b.flat + run_cells(run) <= usize::MAX,
    ensures
        tidy(with_run(b, width, run), width),
{
    match run.clusters {
        Some(clusters) => clusters_keep(b, width, clusters, clusters.len() as int, run.index),
        None => stretching_keeps(
            b,
            width,
            run.width as int,
            None,
            LayoutFragmentKind::InlineDecoration { index: run.index, cell_offset: 0 },
            false,
        ),
    }
}

proof fn runs_keep(b: Build, width: int, runs: Seq<Run>, d: int, c: int)
    requires
        tidy(b, width),
        width <= usize::MAX,
        0 <= d <= runs.len(),
        b.flat == b.content + runs_cells(runs, d),
        b.content + runs_cells(runs, runs.len() as int) <= usize::MAX,
    ensures
        ({
            let after = with_runs(b, width, runs, d, c);
            &&& tidy(after.0, width)
            &&& 0 <= after.1 <= runs.len()
            &&& after.0.content == b.content
            &&& after.0.flat == b.content + runs_cells(runs, after.1)
        }),
    decreases runs.len() - d,
{
    if d < runs.len() && runs[d].anchor <= c {
        runs_cells_grow(runs, d + 1, runs.len() as int);
        run_keeps(b, width, runs[d]);
        run_flat(b, width, runs[d]);
        runs_keep(with_run(b, width, runs[d]), width, runs, d + 1, c);
    }
}

proof fn rest_keeps(b: Build, width: int, runs: Seq<Run>, d: int)
    requires
        tidy(b, width),
        width <= usize::MAX,
        0 <= d <= runs.len(),
        b.flat == b.content + runs_cells(runs, d),
        b.content + runs_cells(runs, runs.len() as int) <= usize::MAX,
    ensures
        tidy(with_rest(b, width, runs, d), width),
        with_rest(b, width, runs, d).flat == b.content + runs_cells(runs, runs.len() as int),
    decreases runs.len() - d,
{
    if d < runs.len() {
        runs_cells_grow(runs, d + 1, runs.len() as int);
        run_keeps(b, width, runs[d]);
        run_flat(b, width, runs[d]);
        rest_keeps(with_run(b, width, runs[d]), width, runs, d + 1);
    }
}

proof fn display_grows(parts: Seq<Seq<char>>, i: int, j: int, tab_width: int)
    requires
        0 <= i <= j <= parts.len(),
    ensures
        display_of(parts, i, tab_width) <= display_of(parts, j, tab_width),
    decreases j - i,
{
    if i < j {
        display_grows(parts, i, j - 1, tab_width);
    }
}

proof fn filling_keeps(width: int, tab_width: int, text: Seq<char>, runs: Seq<Run>, k: int)
    requires
        0 < width <= usize::MAX,
        0 < tab_width,
        0 <= k <= graphemes_of(text).len(),
        display_of(graphemes_of(text), graphemes_of(text).len() as int, tab_width) + runs_cells(
            runs,
            runs.len() as int,
        ) <= usize::MAX,
    ensures
        ({
            let after = filled(width, tab_width, text, runs, k);
            &&& tidy(after.0, width)
            &&& 0 <= after.1 <= runs.len()
            &&& after.0.content == display_of(graphemes_of(text), k, tab_width)
            &&& after.0.flat == after.0.content + runs_cells(runs, after.1)
        }),
    decreases k,
{
    let parts = graphemes_of(text);
    display_grows(parts, k, parts.len() as int, tab_width);
    if k > 0 {
        filling_keeps(width, tab_width, text, runs, k - 1);
        display_grows(parts, k - 1, k, tab_width);
        let before = filled(width, tab_width, text, runs, k - 1);
        let at = chars_before(parts, k - 1) as int;
        runs_keep(before.0, width, runs, before.1, at);
        let (b, d) = with_runs(before.0, width, runs, before.1, at);
        runs_cells_grow(runs, d, runs.len() as int);
        let cells = cells_at(parts[k - 1], b.content, tab_width) as int;
        let span = Some(cluster_span(text, k - 1));
        if parts[k - 1] == seq!['\t'] {
            assert(0 <= b.content % tab_width < tab_width) by (nonlinear_arith)
                requires
                    tab_width > 0,
            ;
            stretching_keeps(b, width, cells, span, LayoutFragmentKind::Tab, true);
            stretched_flat(b, width, cells, span, LayoutFragmentKind::Tab, true);
        } else {
            atomic_keeps(b, width, cells, span, LayoutFragmentKind::Control, true);
            atomic_keeps(b, width, cells, span, LayoutFragmentKind::Text, true);
        }
    }
}

/// The visual rows of a line tile it: the first starts at its first cell, each
/// starts where the one before ends, and together they show every cell of the
/// text and of the virtual text once. The fragments of a row follow each
/// other, and every row but the last is full.
pub proof fn rows_tile_the_line(width: int, tab_width: int, text: Seq<char>, runs: Seq<Run>)
    requires
        0 < width <= usize::MAX,
        0 < tab_width,
        display_of(graphemes_of(text), graphemes_of(text).len() as int, tab_width) + runs_cells(
            runs,
            runs.len() as int,
        ) <= usize::MAX,
    ensures
        ({
            let rows = rich_rows(width, tab_width, text, runs);
            &&& rows.len() > 0
            &&& rows[0].start == 0
            &&& forall|i: int|
                0 <= i < rows.len() - 1 ==> (#[trigger] rows[i]).end == rows[i + 1].start
            &&& rows.last().end == display_of(
                graphemes_of(text),
                graphemes_of(text).len() as int,
                tab_width,
            ) + runs_cells(runs, runs.len() as int)
            &&& forall|i: int| 0 <= i < rows.len() - 1 ==> full(#[trigger] rows[i], width)
            &&& adjoining(
                rows.last().pieces,
                rows.last().start,
                end_column(rows.last().pieces),
                rows.last().end,
            )
            &&& end_column(rows.last().pieces) <= width || (width == 1 && end_column(
                rows.last().pieces,
            ) == 2)
        }),
{
    let n = graphemes_of(text).len() as int;
    filling_keeps(width, tab_width, text, runs, n);
    let all = filled(width, tab_width, text, runs, n);
    rest_keeps(all.0, width, runs, all.1);
    let b = with_rest(all.0, width, runs, all.1);
    let rows = rich_rows(width, tab_width, text, runs);
    assert forall|i: int| 0 <= i < rows.len() - 1 implies (#[trigger] rows[i]).end
        == rows[i + 1].start by {
        assert(rows[i] == b.done[i]);
        if i + 1 < b.done.len() {
            assert(rows[i + 1] == b.done[i + 1]);
        }
    }
    assert forall|i: int| 0 <= i < rows.len() - 1 implies full(#[trigger] rows[i], width) by {
        assert(rows[i] == b.done[i]);
    }
    if b.done.len() > 0 {
        assert(rows[0] == b.done[0]);
    }
}

/// Fragments that follow each other are as far from the start of their row as
/// from its first cell.
proof fn pieces_keep_pace(pieces: Seq<FragmentPlan>, start: int, column: int, flat: int, k: int)
    requires
        adjoining(pieces, start, column, flat),
        0 <= k < pieces.len(),
    ensures
        pieces[k].display_start - pieces[k].row_column == start,
        pieces[k].display_start + pieces[k].cells == if k + 1 < pieces.len() {
            pieces[k + 1].display_start as int
        } else {
            flat
        },
    decreases k,
{
    if k > 0 {
        pieces_keep_pace(pieces, start, column, flat, k - 1);
    }
}

/// Where the first `n` fragments follow each other, the cells of their stretch
/// show as far from the row's start as they are from its first cell.
proof fn column_is_distance(
    pieces: Seq<FragmentPlan>,
    n: int,
    start: int,
    column: int,
    flat: int,
    display: int,
    k: int,
    found: int,
)
    requires
        0 <= k <= n <= pieces.len(),
        adjoining(pieces.take(n), start, column, flat),
        n < pieces.len() ==> pieces[n].display_start == flat && display < flat,
        start <= display <= flat,
        flat - start <= usize::MAX,
        ({
            let from = if k < n {
                pieces[k].display_start as int
            } else {
                flat
            };
            found == (if display < from {
                display
            } else {
                from
            }) - start
        }),
    ensures
        column_in(pieces, k, display, found) == display - start,
    decreases n - k,
{
    if k < n {
        pieces_keep_pace(pieces.take(n), start, column, flat, k);
        assert(pieces.take(n)[k] == pieces[k]);
        if k + 1 < n {
            assert(pieces.take(n)[k + 1] == pieces[k + 1]);
        }
        if pieces[k].display_start <= display {
            let p = pieces[k];
            let inside = display - p.display_start;
            let next = p.row_column + if inside < p.cells {
                inside
            } else {
                p.cells as int
            };
            column_is_distance(pieces, n, start, column, flat, display, k + 1, next);
        }
    }
}

proof fn starts_grow(rows: Seq<Row>, i: int, j: int)
    requires
        0 <= i <= j < rows.len(),
        forall|k: int| 0 <= k < rows.len() - 1 ==> (#[trigger] rows[k]).end == rows[k + 1].start,
        forall|k: int| 0 <= k < rows.len() ==> (#[trigger] rows[k]).start <= rows[k].end,
    ensures
        rows[i].start <= rows[j].start,
    decreases j - i,
{
    if i < j {
        starts_grow(rows, i, j - 1);
    }
}

proof fn last_row_before(rows: Seq<Row>, k: int, display: int)
    requires
        0 <= k <= rows.len(),
        forall|i: int| 0 <= i < k ==> (#[trigger] rows[i]).start <= display,
    ensures
        k <= first_row_behind(rows, k, display) <= rows.len(),
        forall|i: int|
            0 <= i < first_row_behind(rows, k, display) ==> (#[trigger] rows[i]).start <= display,
        first_row_behind(rows, k, display) < rows.len() ==> rows[first_row_behind(
            rows,
            k,
            display,
        )].start > display,
    decreases rows.len() - k,
{
    if k < rows.len() && rows[k].start <= display {
        last_row_before(rows, k + 1, display);
    }
}

proof fn adjoining_ends_behind(pieces: Seq<FragmentPlan>, start: int, column: int, flat: int)
    requires
        adjoining(pieces, start, column, flat),
    ensures
        flat - start == column >= 0,
{
    if pieces.len() > 0 {
        pieces_keep_pace(pieces, start, column, flat, pieces.len() - 1);
    }
}

/// A cell of a line shows in the row that covers it, as far from the row's
/// start as it is from the row's first cell. The end of a line whose last row
/// is full shows at the start of the row below.
pub proof fn cells_show_in_their_rows(
    width: int,
    tab_width: int,
    text: Seq<char>,
    runs: Seq<Run>,
    display: int,
)
    requires
        2 <= width <= usize::MAX,
        0 < tab_width,
        0 <= display <= display_of(
            graphemes_of(text),
            graphemes_of(text).len() as int,
            tab_width,
        ) + runs_cells(runs, runs.len() as int) <= usize::MAX,
    ensures
        ({
            let rows = rich_rows(width, tab_width, text, runs);
            let (row, column) = rich_position(rows, width, display);
            &&& 0 <= row <= rows.len()
            &&& 0 <= column < width
            &&& row < rows.len() ==> rows[row].start + column == display && (display
                < rows[row].end || row == rows.len() - 1)
            &&& row == rows.len() ==> column == 0 && display == rows.last().end
                && rows.last().end - rows.last().start == width
        }),
{
    rows_tile_the_line(width, tab_width, text, runs);
    let rows = rich_rows(width, tab_width, text, runs);
    assert forall|k: int| 0 <= k < rows.len() implies (#[trigger] rows[k]).start <= rows[k].end by {
        let pieces = rows[k].pieces;
        if k < rows.len() - 1 && pieces.last().kind is Padding {
            adjoining_ends_behind(
                pieces.drop_last(),
                rows[k].start,
                pieces.last().row_column as int,
                rows[k].end,
            );
        } else {
            adjoining_ends_behind(pieces, rows[k].start, end_column(pieces), rows[k].end);
        }
    }
    last_row_before(rows, 0, display);
    let behind = first_row_behind(rows, 0, display);
    let row = behind - 1;
    let pieces = rows[row].pieces;
    let start = rows[row].start;
    let end = rows[row].end;
    assert(start >= 0) by {
        starts_grow(rows, 0, row);
    }
    if row < rows.len() - 1 {
        assert(full(rows[row], width));
        if pieces.last().kind is Padding {
            let n = pieces.len() - 1;
            let column = pieces.last().row_column as int;
            assert(pieces.take(n) =~= pieces.drop_last());
            adjoining_ends_behind(pieces.drop_last(), start, column, end);
            if n > 0 {
                assert(pieces.drop_last()[0] == pieces[0]);
            }
            column_is_distance(pieces, n, start, column, end, display, 0, 0);
        } else {
            adjoining_ends_behind(pieces, start, end_column(pieces), end);
            assert(pieces.take(pieces.len() as int) =~= pieces);
            column_is_distance(
                pieces,
                pieces.len() as int,
                start,
                end_column(pieces),
                end,
                display,
                0,
                0,
            );
        }
    } else {
        adjoining_ends_behind(pieces, start, end_column(pieces), end);
        assert(pieces.take(pieces.len() as int) =~= pieces);
        column_is_distance(
            pieces,
            pieces.len() as int,
            start,
            end_column(pieces),
            end,
            display,
            0,
            0,
        );
    }
}

/// The visual rows of a line that is laid out by arithmetic tile it too: each
/// starts where the one before ends, and none ends before it starts.
pub proof fn plain_rows_tile_the_line(text: Seq<char>, width: int, i: int)
    requires
        width > 0,
        0 <= i < (max_of(text.len() as int, 1) + width - 1) / width,
    ensures
        ({
            let n = (max_of(text.len() as int, 1) + width - 1) / width;
            let row = plain_row(text, width, i).0;
            &&& i == 0 ==> row.start == 0
            &&& row.start <= row.end
            &&& i < n - 1 ==> row.end == plain_row(text, width, i + 1).0.start && row.end
                == row.start + width
            &&& i == n - 1 ==> row.end == text.len() && row.end - row.start <= width
        }),
{
    let len = max_of(text.len() as int, 1);
    let n = (len + width - 1) / width;
    assert(n * width <= len + width - 1 < n * width + width) by (nonlinear_arith)
        requires
            width > 0,
            n == (len + width - 1) / width,
    ;
    assert(i * width + width <= n * width - (n - 1 - i) * width) by (nonlinear_arith);
    assert((i + 1) * width == i * width + width) by (nonlinear_arith);
    assert(0 <= i * width) by (nonlinear_arith)
        requires
            0 <= i,
            0 < width,
    ;
    if i < n - 1 {
        assert((i + 1) * width <= (n - 1) * width) by (nonlinear_arith)
            requires
                i + 1 <= n - 1,
                width > 0,
        ;
        assert((n - 1) * width == n * width - width) by (nonlinear_arith);
    } else {
        assert(i * width == n * width - width) by (nonlinear_arith)
            requires
                i == n - 1,
        ;
    }
}

/// The columns of the flat line that a visual row shows.
pub open spec fn row_range(layout: IndexedLineLayout, i: int) -> (int, int) {
    let row = if layout.is_plain() {
        plain_row(layout.text(), layout.row_width(), i).0
    } else {
        layout.rich()[i]
    };
    (row.start, row.end)
}

/// How many cells a line takes with its virtual text.
pub open spec fn line_cells(layout: IndexedLineLayout) -> int {
    if layout.is_plain() {
        layout.text().len() as int
    } else {
        (display_of(
            graphemes_of(layout.text()),
            graphemes_of(layout.text()).len() as int,
            layout.tab_stop(),
        ) + runs_cells(layout.runs(), layout.runs().len() as int)) as int
    }
}

/// What holds of every layout: its rows and its tab stops are at least one cell
/// wide, there is a row, and its cells can be counted.
pub open spec fn laid_out(layout: IndexedLineLayout) -> bool {
    &&& 0 < layout.row_width() <= usize::MAX
    &&& 0 < layout.tab_stop()
    &&& 0 <= line_cells(layout) <= usize::MAX
    &&& 0 < layout.rows_len()
}

/// The ranges of the visual rows tile every line, plain or not: the first
/// starts at the first cell, each starts where the one before ends, none ends
/// before it starts, and the last ends behind the last cell.
pub proof fn row_ranges_tile_the_line(layout: IndexedLineLayout, i: int)
    requires
        laid_out(layout),
        0 <= i < layout.rows_len(),
    ensures
        row_range(layout, 0).0 == 0,
        row_range(layout, i).0 <= row_range(layout, i).1,
        i < layout.rows_len() - 1 ==> row_range(layout, i).1 == row_range(layout, i + 1).0,
        i == layout.rows_len() - 1 ==> row_range(layout, i).1 == line_cells(layout),
{
    if layout.is_plain() {
        plain_rows_tile_the_line(layout.text(), layout.row_width(), 0);
        plain_rows_tile_the_line(layout.text(), layout.row_width(), i);
    } else {
        rows_tile_the_line(
            layout.row_width(),
            layout.tab_stop(),
            layout.text(),
            layout.runs(),
        );
        let row = layout.rich()[i];
        if i < layout.rows_len() - 1 {
            assert(full(row, layout.row_width()));
        }
        if i < layout.rows_len() - 1 && row.pieces.last().kind is Padding {
            adjoining_ends_behind(
                row.pieces.drop_last(),
                row.start,
                row.pieces.last().row_column as int,
                row.end,
            );
        } else {
            adjoining_ends_behind(row.pieces, row.start, end_column(row.pieces), row.end);
        }
    }
}

} // verus!
