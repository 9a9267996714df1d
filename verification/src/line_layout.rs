//! View-independent visual-row geometry for one indexed logical line.
//!
//! Plain printable ASCII lines without inline virtual text use arithmetic
//! only. Rich lines retain compact row plans whose source text is put together
//! only when a frontend asks for particular rows.
use crate::display::{caret_of, cluster_width, control_char_caret, grapheme_display_width};
use crate::row_tiling::{laid_out, row_range};
use crate::text_index::{
    bytes_before, bytes_grow, cells_at, cells_bound, cluster_covering, display_of, plain_ascii,
    slice_of, LineIndex,
};
use crate::unicode::{
    char_col_of, chars_before, chars_before_grows, clusters_within_is, concat_length, grapheme_col_of, graphemes, graphemes_of,
    views, CharCol, GraphemeCol,
};
use std::ops::Range;
use vstd::prelude::*;

verus! {

/// A cell of the wrapped line.
#[derive(Debug, Clone, Copy, PartialEq, Eq, Structural)]
pub struct VisualPosition {
    pub row: usize,
    pub column: usize,
}

/// The stretch of the line that a fragment shows, in bytes, characters and
/// grapheme clusters.
#[derive(Debug, PartialEq, Eq)]
pub struct SourceSpan {
    pub bytes: Range<usize>,
    pub chars: Range<usize>,
    pub graphemes: Range<usize>,
}

/// What a fragment shows.
#[derive(Debug, Clone, Copy, PartialEq, Eq, Structural)]
pub enum LayoutFragmentKind {
    Text,
    Tab,
    Control,
    /// Virtual text, identified by its position in the constructor's input.
    /// `cell_offset` supports decorations split by wrap.
    InlineDecoration { index: usize, cell_offset: usize },
    Padding,
}

/// A stretch of one visual row.
#[derive(Debug, PartialEq, Eq)]
pub struct LayoutFragment {
    pub text: String,
    pub cells: usize,
    pub row_column: usize,
    /// Column in the flat composed line. Wide-character wrap padding is not
    /// part of this coordinate space.
    pub display_start: usize,
    pub source: Option<SourceSpan>,
    pub kind: LayoutFragmentKind,
}

/// One visual row with its fragments put together.
#[derive(Debug, PartialEq, Eq)]
pub struct LayoutRow {
    pub index: usize,
    pub display_start: usize,
    pub display_end: usize,
    pub fragments: Vec<LayoutFragment>,
}

/// A stretch of the line, in bytes, characters and clusters.
#[derive(Debug, Clone, Copy, PartialEq, Eq, Structural)]
pub struct Span {
    pub byte_start: usize,
    pub byte_end: usize,
    pub char_start: usize,
    pub char_end: usize,
    pub grapheme_start: usize,
    pub grapheme_end: usize,
}

/// A fragment whose text is not yet put together.
#[derive(Debug, Clone, Copy, PartialEq, Eq, Structural)]
pub struct FragmentPlan {
    pub cells: usize,
    pub row_column: usize,
    pub display_start: usize,
    pub source: Option<Span>,
    pub kind: LayoutFragmentKind,
}

/// A visual row whose fragments are not yet put together.
#[derive(Debug)]
pub struct RowPlan {
    pub display_start: usize,
    pub display_end: usize,
    pub fragments: Vec<FragmentPlan>,
}

/// Inline virtual text anchored at a character column.
#[derive(Debug)]
pub struct InlineRun {
    pub anchor: usize,
    pub width: usize,
    pub original_index: usize,
    pub text: Option<String>,
}

#[derive(Debug)]
enum Geometry {
    PlainAscii { len: usize },
    Rich { rows: Vec<RowPlan> },
}

/// A model of a visual row.
pub ghost struct Row {
    pub start: int,
    pub end: int,
    pub pieces: Seq<FragmentPlan>,
}

/// A model of inline virtual text.
pub ghost struct Run {
    pub anchor: int,
    pub width: nat,
    pub index: usize,
    pub clusters: Option<Seq<Seq<char>>>,
}

/// Rows under construction: those that are full, and the one being filled.
pub ghost struct Build {
    pub done: Seq<Row>,
    pub start: int,
    pub pieces: Seq<FragmentPlan>,
    /// The next free column of the row being filled.
    pub column: int,
    /// The next column of the flat composed line.
    pub flat: int,
    /// The next column of the line's own text.
    pub content: int,
}

pub open spec fn row_model(row: RowPlan) -> Row {
    Row { start: row.display_start as int, end: row.display_end as int, pieces: row.fragments@ }
}

pub open spec fn rows_model(rows: Seq<RowPlan>) -> Seq<Row> {
    rows.map_values(|r: RowPlan| row_model(r))
}

pub open spec fn run_model(run: InlineRun) -> Run {
    Run {
        anchor: run.anchor as int,
        width: run.width as nat,
        index: run.original_index,
        clusters: match run.text {
            Some(t) => Some(graphemes_of(t@)),
            None => None,
        },
    }
}

pub open spec fn runs_model(runs: Seq<InlineRun>) -> Seq<Run> {
    runs.map_values(|r: InlineRun| run_model(r))
}

/// Two spans of which the second starts where the first ends.
pub open spec fn spans_adjoin(a: Span, b: Span) -> bool {
    a.byte_end == b.byte_start && a.char_end == b.char_start && a.grapheme_end == b.grapheme_start
}

pub open spec fn spans_joined(a: Span, b: Span) -> Span {
    Span { byte_end: b.byte_end, char_end: b.char_end, grapheme_end: b.grapheme_end, ..a }
}

/// Two plain text fragments that can be shown as one.
pub open spec fn joins(a: FragmentPlan, b: FragmentPlan) -> bool {
    &&& a.kind is Text
    &&& b.kind is Text
    &&& a.row_column + a.cells == b.row_column
    &&& a.display_start + a.cells == b.display_start
    &&& a.source is Some
    &&& b.source is Some
    &&& spans_adjoin(a.source->0, b.source->0)
}

/// The row with a fragment appended; text that continues the row's last
/// fragment extends it.
pub open spec fn with_piece(pieces: Seq<FragmentPlan>, p: FragmentPlan) -> Seq<FragmentPlan> {
    if pieces.len() > 0 && joins(pieces.last(), p) {
        let last = pieces.last();
        pieces.drop_last().push(
            FragmentPlan {
                cells: (last.cells + p.cells) as usize,
                source: Some(spans_joined(last.source->0, p.source->0)),
                ..last
            },
        )
    } else {
        pieces.push(p)
    }
}

impl Build {
    pub open spec fn new() -> Build {
        Build {
            done: Seq::empty(),
            start: 0,
            pieces: Seq::empty(),
            column: 0,
            flat: 0,
            content: 0,
        }
    }

    pub open spec fn next_row(self) -> Build {
        Build {
            done: self.done.push(Row { start: self.start, end: self.flat, pieces: self.pieces }),
            start: self.flat,
            pieces: Seq::empty(),
            column: 0,
            ..self
        }
    }

    /// Fills the rest of the row with blanks that are no part of the line.
    pub open spec fn padded(self, width: int) -> Build {
        if self.column < width {
            Build {
                pieces: with_piece(
                    self.pieces,
                    FragmentPlan {
                        cells: (width - self.column) as usize,
                        row_column: self.column as usize,
                        display_start: self.flat as usize,
                        source: None,
                        kind: LayoutFragmentKind::Padding,
                    },
                ),
                column: width,
                ..self
            }
        } else {
            self
        }
    }

    /// Puts a fragment at the next free column.
    pub open spec fn placed(
        self,
        cells: int,
        source: Option<Span>,
        kind: LayoutFragmentKind,
        own: bool,
    ) -> Build {
        Build {
            pieces: with_piece(
                self.pieces,
                FragmentPlan {
                    cells: cells as usize,
                    row_column: self.column as usize,
                    display_start: self.flat as usize,
                    source,
                    kind,
                },
            ),
            column: self.column + cells,
            flat: self.flat + cells,
            content: if own {
                self.content + cells
            } else {
                self.content
            },
            ..self
        }
    }

    /// Puts a fragment that no row may split: where it does not fit, the row
    /// is padded and the fragment opens the next one, however narrow that is.
    pub open spec fn atomic(
        self,
        width: int,
        cells: int,
        source: Option<Span>,
        kind: LayoutFragmentKind,
        own: bool,
    ) -> Build {
        let b = if self.column + cells > width {
            self.padded(width).next_row()
        } else {
            self
        };
        b.placed(cells, source, kind, own)
    }

    /// Puts a stretch of cells, going on in the next row where one is full.
    /// A decoration's pieces carry the cell at which they start.
    pub open spec fn stretched(
        self,
        width: int,
        cells: int,
        source: Option<Span>,
        kind: LayoutFragmentKind,
        own: bool,
    ) -> Build
        decreases cells,
    {
        if cells <= 0 || width <= 0 {
            self
        } else {
            let b = if self.column >= width {
                self.next_row()
            } else {
                self
            };
            let room = width - b.column;
            let take = if cells < room {
                cells
            } else {
                room
            };
            if take <= 0 {
                b
            } else {
                b.placed(take, source, kind, own).stretched(
                    width,
                    cells - take,
                    source,
                    shifted(kind, take),
                    own,
                )
            }
        }
    }

    /// The finished rows.
    pub open spec fn rows(self) -> Seq<Row> {
        self.done.push(Row { start: self.start, end: self.flat, pieces: self.pieces })
    }
}

/// The kind of a fragment that starts `cells` further on.
pub open spec fn shifted(kind: LayoutFragmentKind, cells: int) -> LayoutFragmentKind {
    match kind {
        LayoutFragmentKind::InlineDecoration { index, cell_offset } =>
            LayoutFragmentKind::InlineDecoration {
                index,
                cell_offset: (cell_offset + cells) as usize,
            },
        _ => kind,
    }
}

/// How many cells the first `k` clusters of virtual text take.
pub open spec fn inline_cells(clusters: Seq<Seq<char>>, k: int) -> nat
    decreases k,
{
    if k <= 0 || k > clusters.len() {
        0
    } else {
        inline_cells(clusters, k - 1) + cluster_width(clusters[k - 1])
    }
}

/// The rows after the first `k` clusters of virtual text: narrow clusters
/// fill cells, wide ones are not split.
pub open spec fn with_clusters(
    b: Build,
    width: int,
    clusters: Seq<Seq<char>>,
    k: int,
    index: usize,
) -> Build
    decreases k,
{
    if k <= 0 || k > clusters.len() {
        b
    } else {
        let before = with_clusters(b, width, clusters, k - 1, index);
        let cells = cluster_width(clusters[k - 1]) as int;
        let kind = LayoutFragmentKind::InlineDecoration {
            index,
            cell_offset: inline_cells(clusters, k - 1) as usize,
        };
        if cells <= 1 {
            before.stretched(width, cells, None, kind, false)
        } else {
            before.atomic(width, cells, None, kind, false)
        }
    }
}

/// The rows after a run of virtual text.
pub open spec fn with_run(b: Build, width: int, run: Run) -> Build {
    match run.clusters {
        Some(clusters) => with_clusters(b, width, clusters, clusters.len() as int, run.index),
        None => b.stretched(
            width,
            run.width as int,
            None,
            LayoutFragmentKind::InlineDecoration { index: run.index, cell_offset: 0 },
            false,
        ),
    }
}

/// The rows after the runs from the `d`th on that are anchored at or before
/// character `c`, and the next run.
pub open spec fn with_runs(b: Build, width: int, runs: Seq<Run>, d: int, c: int) -> (Build, int)
    decreases runs.len() - d,
{
    if 0 <= d < runs.len() && runs[d].anchor <= c {
        with_runs(with_run(b, width, runs[d]), width, runs, d + 1, c)
    } else {
        (b, d)
    }
}

/// The stretch of the line that cluster `k` is.
pub open spec fn cluster_span(text: Seq<char>, k: int) -> Span {
    let parts = graphemes_of(text);
    Span {
        byte_start: bytes_before(text, chars_before(parts, k) as int) as usize,
        byte_end: bytes_before(text, chars_before(parts, k + 1) as int) as usize,
        char_start: chars_before(parts, k) as usize,
        char_end: chars_before(parts, k + 1) as usize,
        grapheme_start: k as usize,
        grapheme_end: (k + 1) as usize,
    }
}

/// The rows after cluster `k`: a tab fills cells up to the next tab stop of
/// the line's own text, anything else is not split.
pub open spec fn with_cluster(
    b: Build,
    width: int,
    tab_width: int,
    text: Seq<char>,
    k: int,
) -> Build {
    let cluster = graphemes_of(text)[k];
    let cells = cells_at(cluster, b.content, tab_width) as int;
    let span = Some(cluster_span(text, k));
    if cluster == seq!['\t'] {
        b.stretched(width, cells, span, LayoutFragmentKind::Tab, true)
    } else if cluster.len() == 1 && caret_of(cluster[0]) is Some {
        b.atomic(width, 2, span, LayoutFragmentKind::Control, true)
    } else {
        b.atomic(width, cells, span, LayoutFragmentKind::Text, true)
    }
}

/// The rows after the first `k` clusters with the runs anchored before them,
/// and the next run.
pub open spec fn filled(
    width: int,
    tab_width: int,
    text: Seq<char>,
    runs: Seq<Run>,
    k: int,
) -> (Build, int)
    decreases k,
{
    if k <= 0 || k > graphemes_of(text).len() {
        (Build::new(), 0)
    } else {
        let before = filled(width, tab_width, text, runs, k - 1);
        let at = chars_before(graphemes_of(text), k - 1) as int;
        let decorated = with_runs(before.0, width, runs, before.1, at);
        (with_cluster(decorated.0, width, tab_width, text, k - 1), decorated.1)
    }
}

/// The rows from run `d` on, whatever their anchors.
pub open spec fn with_rest(b: Build, width: int, runs: Seq<Run>, d: int) -> Build
    decreases runs.len() - d,
{
    if 0 <= d < runs.len() {
        with_rest(with_run(b, width, runs[d]), width, runs, d + 1)
    } else {
        b
    }
}

/// The visual rows of a line wrapped at `width`.
pub open spec fn rich_rows(
    width: int,
    tab_width: int,
    text: Seq<char>,
    runs: Seq<Run>,
) -> Seq<Row> {
    let all = filled(width, tab_width, text, runs, graphemes_of(text).len() as int);
    with_rest(all.0, width, runs, all.1).rows()
}

/// How many cells a run takes.
pub open spec fn run_cells(run: Run) -> nat {
    match run.clusters {
        Some(clusters) => inline_cells(clusters, clusters.len() as int),
        None => run.width,
    }
}

/// How many cells the first `k` runs take.
pub open spec fn runs_cells(runs: Seq<Run>, k: int) -> nat
    decreases k,
{
    if k <= 0 || k > runs.len() {
        0
    } else {
        runs_cells(runs, k - 1) + run_cells(runs[k - 1])
    }
}

struct RowBuilder {
    width: usize,
    rows: Vec<RowPlan>,
    start: usize,
    pieces: Vec<FragmentPlan>,
    row_column: usize,
    flat_display: usize,
    content_display: usize,
}

/// What the width of a row and its fragments have to do with each other.
pub open spec fn build_wf(b: Build, width: int) -> bool {
    &&& 0 < width <= usize::MAX
    &&& 0 <= b.start <= b.flat
    &&& 0 <= b.column
    &&& b.column <= width || b.column <= 2
    &&& 0 <= b.content <= b.flat
    &&& forall|k: int|
        0 <= k < b.pieces.len() ==> (#[trigger] b.pieces[k]).row_column + b.pieces[k].cells
            <= b.column
}

impl RowBuilder {
    spec fn model(self) -> Build {
        Build {
            done: rows_model(self.rows@),
            start: self.start as int,
            pieces: self.pieces@,
            column: self.row_column as int,
            flat: self.flat_display as int,
            content: self.content_display as int,
        }
    }

    spec fn wf(self) -> bool {
        build_wf(self.model(), self.width as int)
    }

    fn new(width: usize) -> (b: RowBuilder)
        requires
            width > 0,
        ensures
            b.wf(),
            b.width == width,
            b.model() == Build::new(),
    {
        let b = RowBuilder {
            width,
            rows: Vec::new(),
            start: 0,
            pieces: Vec::new(),
            row_column: 0,
            flat_display: 0,
            content_display: 0,
        };
        proof {
            assert(b.model().done =~= Build::new().done);
            assert(b.model().pieces =~= Build::new().pieces);
        }
        b
    }

    fn next_row(&mut self)
        requires
            old(self).wf(),
        ensures
            final(self).wf(),
            final(self).width == old(self).width,
            final(self).model() == old(self).model().next_row(),
    {
        let mut pieces: Vec<FragmentPlan> = Vec::new();
        std::mem::swap(&mut pieces, &mut self.pieces);
        let row = RowPlan {
            display_start: self.start,
            display_end: self.flat_display,
            fragments: pieces,
        };
        let ghost model = row_model(row);
        self.rows.push(row);
        self.start = self.flat_display;
        self.row_column = 0;
        proof {
            assert(self.model().done =~= old(self).model().done.push(model));
            assert(self.model().pieces =~= Seq::<FragmentPlan>::empty());
        }
    }

    fn push_plan(&mut self, plan: FragmentPlan)
        requires
            old(self).wf(),
            plan.row_column == old(self).row_column,
            plan.row_column + plan.cells <= usize::MAX,
            plan.display_start + plan.cells <= usize::MAX,
        ensures
            final(self).model() == (Build {
                pieces: with_piece(old(self).pieces@, plan),
                ..old(self).model()
            }),
            final(self).width == old(self).width,
            final(self).start == old(self).start,
            final(self).row_column == old(self).row_column,
            final(self).flat_display == old(self).flat_display,
            final(self).content_display == old(self).content_display,
            forall|k: int|
                0 <= k < final(self).pieces.len() ==> (#[trigger] final(self).pieces@[k]).row_column
                    + final(self).pieces@[k].cells <= plan.row_column + plan.cells,
    {
        match self.pieces.pop() {
            None => {
                self.pieces.push(plan);
            },
            Some(mut last) => {
                proof {
                    assert(last == old(self).pieces@.last());
                    assert(last.row_column + last.cells <= plan.row_column);
                    assert(self.pieces@ =~= old(self).pieces@.drop_last());
                }
                let join = match (last.kind, plan.kind, last.source, plan.source) {
                    (LayoutFragmentKind::Text, LayoutFragmentKind::Text, Some(a), Some(b)) =>
                        if last.row_column + last.cells == plan.row_column && plan.display_start
                            >= last.cells && last.display_start == plan.display_start - last.cells
                            && a.byte_end == b.byte_start && a.char_end == b.char_start
                            && a.grapheme_end == b.grapheme_start {
                            Some(
                                Span {
                                    byte_end: b.byte_end,
                                    char_end: b.char_end,
                                    grapheme_end: b.grapheme_end,
                                    ..a
                                },
                            )
                        } else {
                            None
                        },
                    _ => None,
                };
                proof {
                    assert(join is Some <==> joins(last, plan));
                }
                match join {
                    Some(span) => {
                        last.cells += plan.cells;
                        last.source = Some(span);
                        self.pieces.push(last);
                    },
                    None => {
                        self.pieces.push(last);
                        self.pieces.push(plan);
                        proof {
                            assert(self.pieces@ =~= old(self).pieces@.push(plan));
                        }
                    },
                }
            },
        }
        proof {
            assert(self.model().pieces =~= with_piece(old(self).pieces@, plan));
        }
    }

    fn pad_current_row(&mut self)
        requires
            old(self).wf(),
            old(self).flat_display + old(self).width <= usize::MAX,
        ensures
            final(self).wf(),
            final(self).width == old(self).width,
            final(self).model() == old(self).model().padded(old(self).width as int),
    {
        if self.row_column < self.width {
            let cells: usize = self.width - self.row_column;
            self.push_plan(
                FragmentPlan {
                    cells,
                    row_column: self.row_column,
                    display_start: self.flat_display,
                    source: None,
                    kind: LayoutFragmentKind::Padding,
                },
            );
            self.row_column += cells;
        }
    }

    fn place(&mut self, cells: usize, source: Option<Span>, kind: LayoutFragmentKind, own: bool)
        requires
            old(self).wf(),
            old(self).flat_display + cells <= usize::MAX,
            old(self).row_column + cells <= old(self).width || (old(self).row_column == 0 && cells
                <= 2),
        ensures
            final(self).wf(),
            final(self).width == old(self).width,
            final(self).model() == old(self).model().placed(cells as int, source, kind, own),
    {
        self.push_plan(
            FragmentPlan {
                cells,
                row_column: self.row_column,
                display_start: self.flat_display,
                source,
                kind,
            },
        );
        self.row_column += cells;
        self.flat_display += cells;
        if own {
            self.content_display += cells;
        }
    }

    fn push_atomic(
        &mut self,
        source: Option<Span>,
        cells: usize,
        kind: LayoutFragmentKind,
        own: bool,
    )
        requires
            old(self).wf(),
            cells <= 2,
            old(self).flat_display + old(self).width + cells <= usize::MAX,
        ensures
            final(self).wf(),
            final(self).width == old(self).width,
            final(self).model() == old(self).model().atomic(
                old(self).width as int,
                cells as int,
                source,
                kind,
                own,
            ),
    {
        if self.row_column > self.width || self.width - self.row_column < cells {
            self.pad_current_row();
            self.next_row();
        }
        self.place(cells, source, kind, own);
    }

    fn push_cells(
        &mut self,
        source: Option<Span>,
        total: usize,
        first_kind: LayoutFragmentKind,
        own: bool,
    )
        requires
            old(self).wf(),
            old(self).flat_display + total <= usize::MAX,
            match first_kind {
                LayoutFragmentKind::InlineDecoration { index, cell_offset } => cell_offset + total
                    <= usize::MAX,
                _ => true,
            },
        ensures
            final(self).wf(),
            final(self).width == old(self).width,
            final(self).model() == old(self).model().stretched(
                old(self).width as int,
                total as int,
                source,
                first_kind,
                own,
            ),
    {
        let mut cells: usize = total;
        let mut kind = first_kind;
        let ghost goal = self.model().stretched(
            self.width as int,
            total as int,
            source,
            first_kind,
            own,
        );
        while cells > 0
            invariant
                self.wf(),
                self.width == old(self).width,
                self.flat_display + cells <= usize::MAX,
                match kind {
                    LayoutFragmentKind::InlineDecoration { index, cell_offset } => cell_offset
                        + cells <= usize::MAX,
                    _ => true,
                },
                self.model().stretched(self.width as int, cells as int, source, kind, own) == goal,
            decreases cells,
        {
            if self.row_column >= self.width {
                self.next_row();
            }
            let room: usize = self.width - self.row_column;
            let take: usize = if cells < room {
                cells
            } else {
                room
            };
            self.place(take, source, kind, own);
            kind = match kind {
                LayoutFragmentKind::InlineDecoration { index, cell_offset } =>
                    LayoutFragmentKind::InlineDecoration { index, cell_offset: cell_offset + take },
                other => other,
            };
            cells -= take;
        }
    }

    fn push_inline(&mut self, run: &InlineRun)
        requires
            old(self).wf(),
            old(self).flat_display + run_cells(run_model(*run)) + old(self).width <= usize::MAX,
        ensures
            final(self).wf(),
            final(self).width == old(self).width,
            final(self).model() == with_run(
                old(self).model(),
                old(self).width as int,
                run_model(*run),
            ),
    {
        match &run.text {
            None => {
                self.push_cells(
                    None,
                    run.width,
                    LayoutFragmentKind::InlineDecoration {
                        index: run.original_index,
                        cell_offset: 0,
                    },
                    false,
                );
            },
            Some(text) => {
                let parts = graphemes(text.as_str());
                let ghost v = views(parts@);
                let ghost b0 = self.model();
                let mut cell_offset: usize = 0;
                let mut k: usize = 0;
                while k < parts.len()
                    invariant
                        self.wf(),
                        self.width == old(self).width,
                        k <= parts.len(),
                        v == views(parts@),
                        b0 == old(self).model(),
                        cell_offset == inline_cells(v, k as int),
                        self.model() == with_clusters(
                            b0,
                            self.width as int,
                            v,
                            k as int,
                            run.original_index,
                        ),
                        self.flat_display == b0.flat + cell_offset,
                        b0.flat + inline_cells(v, v.len() as int) + self.width <= usize::MAX,
                    decreases parts.len() - k,
                {
                    let cells: usize = grapheme_display_width(parts[k].as_str());
                    proof {
                        assert(v[k as int] == parts@[k as int]@);
                        inline_cells_grow(v, k + 1, v.len() as int);
                        stretched_flat(
                            self.model(),
                            self.width as int,
                            cells as int,
                            None,
                            LayoutFragmentKind::InlineDecoration {
                                index: run.original_index,
                                cell_offset,
                            },
                            false,
                        );
                    }
                    let kind = LayoutFragmentKind::InlineDecoration {
                        index: run.original_index,
                        cell_offset,
                    };
                    if cells <= 1 {
                        self.push_cells(None, cells, kind, false);
                    } else {
                        self.push_atomic(None, cells, kind, false);
                    }
                    cell_offset += cells;
                    k += 1;
                }
            },
        }
    }

    fn finish(self) -> (rows: Vec<RowPlan>)
        requires
            self.wf(),
        ensures
            rows_model(rows@) == self.model().rows(),
            rows.len() > 0,
    {
        let mut b = self;
        b.next_row();
        proof {
            assert(rows_model(b.rows@) =~= self.model().rows());
        }
        b.rows
    }
}

proof fn inline_cells_grow(clusters: Seq<Seq<char>>, i: int, j: int)
    requires
        0 <= i <= j <= clusters.len(),
    ensures
        inline_cells(clusters, i) <= inline_cells(clusters, j),
    decreases j - i,
{
    if i < j {
        inline_cells_grow(clusters, i, j - 1);
    }
}

pub(crate) proof fn runs_cells_grow(runs: Seq<Run>, i: int, j: int)
    requires
        0 <= i <= j <= runs.len(),
    ensures
        runs_cells(runs, i) <= runs_cells(runs, j),
    decreases j - i,
{
    if i < j {
        runs_cells_grow(runs, i, j - 1);
    }
}

/// A stretch advances the flat column by its cells.
pub proof fn stretched_flat(
    b: Build,
    width: int,
    cells: int,
    source: Option<Span>,
    kind: LayoutFragmentKind,
    own: bool,
)
    requires
        width > 0,
        cells >= 0,
    ensures
        b.stretched(width, cells, source, kind, own).flat == b.flat + cells,
        b.stretched(width, cells, source, kind, own).content == b.content + if own {
            cells
        } else {
            0
        },
    decreases cells,
{
    if cells > 0 {
        let c = if b.column >= width {
            b.next_row()
        } else {
            b
        };
        let room = width - c.column;
        let take = if cells < room {
            cells
        } else {
            room
        };
        stretched_flat(
            c.placed(take, source, kind, own),
            width,
            cells - take,
            source,
            shifted(kind, take),
            own,
        );
    }
}

/// A run advances the flat column by its cells and leaves the text's column.
pub proof fn run_flat(b: Build, width: int, run: Run)
    requires
        width > 0,
    ensures
        with_run(b, width, run).flat == b.flat + run_cells(run),
        with_run(b, width, run).content == b.content,
{
    match run.clusters {
        Some(clusters) => clusters_flat(b, width, clusters, clusters.len() as int, run.index),
        None => stretched_flat(
            b,
            width,
            run.width as int,
            None,
            LayoutFragmentKind::InlineDecoration { index: run.index, cell_offset: 0 },
            false,
        ),
    }
}

proof fn clusters_flat(b: Build, width: int, clusters: Seq<Seq<char>>, k: int, index: usize)
    requires
        width > 0,
        0 <= k <= clusters.len(),
    ensures
        with_clusters(b, width, clusters, k, index).flat == b.flat + inline_cells(clusters, k),
        with_clusters(b, width, clusters, k, index).content == b.content,
    decreases k,
{
    if k > 0 {
        clusters_flat(b, width, clusters, k - 1, index);
        stretched_flat(
            with_clusters(b, width, clusters, k - 1, index),
            width,
            cluster_width(clusters[k - 1]) as int,
            None,
            LayoutFragmentKind::InlineDecoration {
                index,
                cell_offset: inline_cells(clusters, k - 1) as usize,
            },
            false,
        );
    }
}

/// Lays a line out in rows of `width` cells.
fn build_rich_rows(
    line: &LineIndex,
    width: usize,
    tab_width: usize,
    inline: &Vec<InlineRun>,
) -> (rows: Vec<RowPlan>)
    requires
        width > 0,
        tab_width > 0,
        cells_bound(line.text(), line.text().len() as int, tab_width as int) + runs_cells(
            runs_model(inline@),
            inline.len() as int,
        ) + width <= usize::MAX,
    ensures
        rows_model(rows@) == rich_rows(
            width as int,
            tab_width as int,
            line.text(),
            runs_model(inline@),
        ),
        rows.len() > 0,
{
    let mut builder = RowBuilder::new(width);
    let mut decoration: usize = 0;
    let ghost runs = runs_model(inline@);
    let ghost text = line.text();
    let ghost parts = line.parts();
    let n: usize = line.grapheme_count();
    let mut k: usize = 0;
    proof {
        use_type_invariant(line);
        line.wf_is();
    }
    while k < n
        invariant
            line.wf(),
            text == line.text(),
            parts == line.parts(),
            runs == runs_model(inline@),
            k <= n == parts.len(),
            decoration <= inline.len(),
            builder.wf(),
            builder.width == width,
            tab_width > 0,
            width > 0,
            filled(width as int, tab_width as int, text, runs, k as int) == (
                builder.model(),
                decoration as int,
            ),
            builder.content_display == display_of(parts, k as int, tab_width as int),
            builder.flat_display == builder.content_display + runs_cells(runs, decoration as int),
            cells_bound(text, text.len() as int, tab_width as int) + runs_cells(
                runs,
                runs.len() as int,
            ) + width <= usize::MAX,
        decreases n - k,
    {
        proof {
            line.wf_is();
            line.display_bounded(k + 1, tab_width as int);
            line.display_bounded(k as int, tab_width as int);
        }
        let char_start: usize = line.grapheme_to_char(GraphemeCol(k)).0;
        let char_end: usize = line.grapheme_to_char(GraphemeCol(k + 1)).0;
        let ghost entry = builder.model();
        let ghost entry_run = decoration as int;
        while decoration < inline.len() && inline[decoration].anchor <= char_start
            invariant
                line.wf(),
                runs == runs_model(inline@),
                decoration <= inline.len(),
                builder.wf(),
                builder.width == width,
                width > 0,
                with_runs(builder.model(), width as int, runs, decoration as int, char_start as int)
                    == with_runs(entry, width as int, runs, entry_run, char_start as int),
                builder.content_display == entry.content,
                builder.flat_display == builder.content_display + runs_cells(
                    runs,
                    decoration as int,
                ),
                builder.content_display + runs_cells(runs, runs.len() as int) + width
                    <= usize::MAX,
            decreases inline.len() - decoration,
        {
            proof {
                assert(runs[decoration as int] == run_model(inline@[decoration as int]));
                runs_cells_grow(runs, decoration + 1, runs.len() as int);
                run_flat(builder.model(), width as int, runs[decoration as int]);
            }
            builder.push_inline(&inline[decoration]);
            decoration += 1;
        }
        proof {
            if decoration < inline.len() {
                assert(runs[decoration as int] == run_model(inline@[decoration as int]));
            }
            bytes_grow(text, char_start as int, char_end as int);
            bytes_grow(text, char_end as int, text.len() as int);
            runs_cells_grow(runs, decoration as int, runs.len() as int);
            chars_before_grows(parts, k as int, k + 1);
        }
        let source = Some(
            Span {
                byte_start: line.char_to_byte(char_start),
                byte_end: line.char_to_byte(char_end),
                char_start,
                char_end,
                grapheme_start: k,
                grapheme_end: k + 1,
            },
        );
        proof {
            assert(source == Some(cluster_span(text, k as int)));
        }
        let cluster = line.cluster(k);
        let cells: usize = line.cluster_cells(k, builder.content_display, tab_width);
        let single = cluster.unicode_len() == 1;
        let first = cluster.get_char(0);
        proof {
            assert(single ==> cluster@ =~= seq![first]);
            assert(seq!['\t'].len() == 1 && seq!['\t'][0] == '\t');
            stretched_flat(
                builder.model(),
                width as int,
                cells as int,
                source,
                LayoutFragmentKind::Tab,
                true,
            );
        }
        if single && first == '\t' {
            builder.push_cells(source, cells, LayoutFragmentKind::Tab, true);
        } else if single && control_char_caret(first).is_some() {
            builder.push_atomic(source, 2, LayoutFragmentKind::Control, true);
        } else {
            builder.push_atomic(source, cells, LayoutFragmentKind::Text, true);
        }
        k += 1;
    }
    let ghost entry = builder.model();
    let ghost entry_run = decoration as int;
    proof {
        line.display_bounded(k as int, tab_width as int);
    }
    while decoration < inline.len()
        invariant
            runs == runs_model(inline@),
            decoration <= inline.len(),
            builder.wf(),
            builder.width == width,
            width > 0,
            with_rest(builder.model(), width as int, runs, decoration as int) == with_rest(
                entry,
                width as int,
                runs,
                entry_run,
            ),
            builder.content_display == entry.content,
            builder.flat_display == builder.content_display + runs_cells(runs, decoration as int),
            builder.content_display + runs_cells(runs, runs.len() as int) + width <= usize::MAX,
        decreases inline.len() - decoration,
    {
        proof {
            assert(runs[decoration as int] == run_model(inline@[decoration as int]));
            runs_cells_grow(runs, decoration + 1, runs.len() as int);
            run_flat(builder.model(), width as int, runs[decoration as int]);
        }
        builder.push_inline(&inline[decoration]);
        decoration += 1;
    }
    builder.finish()
}

/// A model of a fragment with its text.
pub ghost struct Fragment {
    pub text: Seq<char>,
    pub cells: int,
    pub row_column: int,
    pub display_start: int,
    pub source: Option<Span>,
    pub kind: LayoutFragmentKind,
}

pub open spec fn span_of(source: SourceSpan) -> Span {
    Span {
        byte_start: source.bytes.start,
        byte_end: source.bytes.end,
        char_start: source.chars.start,
        char_end: source.chars.end,
        grapheme_start: source.graphemes.start,
        grapheme_end: source.graphemes.end,
    }
}

pub open spec fn fragment_model(f: LayoutFragment) -> Fragment {
    Fragment {
        text: f.text@,
        cells: f.cells as int,
        row_column: f.row_column as int,
        display_start: f.display_start as int,
        source: match f.source {
            Some(s) => Some(span_of(s)),
            None => None,
        },
        kind: f.kind,
    }
}

pub open spec fn fragments_model(list: Seq<LayoutFragment>) -> Seq<Fragment> {
    list.map_values(|f: LayoutFragment| fragment_model(f))
}

/// `n` blanks.
pub open spec fn blanks(n: int) -> Seq<char> {
    Seq::new(n as nat, |k: int| ' ')
}

/// The clusters of virtual text, among the first `k`, that show in the cells
/// from `start` to `end`.
pub open spec fn inline_text(clusters: Seq<Seq<char>>, k: int, start: int, end: int) -> Seq<char>
    decreases k,
{
    if k <= 0 || k > clusters.len() {
        Seq::empty()
    } else {
        let before = inline_text(clusters, k - 1, start, end);
        if inline_cells(clusters, k) > start && inline_cells(clusters, k - 1) < end {
            before + clusters[k - 1]
        } else {
            before
        }
    }
}

/// The first run, from the `k`th on, that has a given position in the input.
pub open spec fn run_with_index(runs: Seq<Run>, k: int, index: usize) -> Option<Run>
    decreases runs.len() - k,
{
    if k < 0 || k >= runs.len() {
        None
    } else if runs[k].index == index {
        Some(runs[k])
    } else {
        run_with_index(runs, k + 1, index)
    }
}

/// The virtual text of a decoration between two of its cells.
pub open spec fn decoration_text(runs: Seq<Run>, index: usize, start: int, end: int) -> Seq<char> {
    match run_with_index(runs, 0, index) {
        Some(run) => match run.clusters {
            Some(clusters) => inline_text(clusters, clusters.len() as int, start, end),
            None => Seq::empty(),
        },
        None => Seq::empty(),
    }
}

/// The largest machine integer bounds a sum.
pub open spec fn sat(x: int) -> int {
    if x <= usize::MAX {
        x
    } else {
        usize::MAX as int
    }
}

/// The text that a planned fragment shows.
pub open spec fn plan_text(p: FragmentPlan, text: Seq<char>, runs: Seq<Run>) -> Seq<char> {
    match p.kind {
        LayoutFragmentKind::Text => match p.source {
            Some(s) => slice_of(text, s.char_start as int, s.char_end as int),
            None => Seq::empty(),
        },
        LayoutFragmentKind::Tab | LayoutFragmentKind::Padding => blanks(p.cells as int),
        LayoutFragmentKind::Control => match p.source {
            Some(s) => {
                let shown = slice_of(text, s.char_start as int, s.char_end as int);
                if shown.len() > 0 && caret_of(shown[0]) is Some {
                    caret_of(shown[0])->0
                } else {
                    Seq::empty()
                }
            },
            None => Seq::empty(),
        },
        LayoutFragmentKind::InlineDecoration { index, cell_offset } => decoration_text(
            runs,
            index,
            cell_offset as int,
            sat(cell_offset + p.cells),
        ),
    }
}

pub open spec fn plan_fragment(p: FragmentPlan, text: Seq<char>, runs: Seq<Run>) -> Fragment {
    Fragment {
        text: plan_text(p, text, runs),
        cells: p.cells as int,
        row_column: p.row_column as int,
        display_start: p.display_start as int,
        source: p.source,
        kind: p.kind,
    }
}

/// The rows of a plain ASCII line: `width` characters each, the last padded.
pub open spec fn plain_row(text: Seq<char>, width: int, index: int) -> (Row, Seq<Fragment>) {
    let start = index * width;
    let end = if start + width < text.len() {
        start + width
    } else {
        text.len() as int
    };
    let shown = if start < end {
        seq![plain_fragment(text, start, end, 0)]
    } else {
        Seq::empty()
    };
    let padding = if end - start < width {
        seq![
            Fragment {
                text: blanks(width - (end - start)),
                cells: width - (end - start),
                row_column: end - start,
                display_start: end,
                source: None,
                kind: LayoutFragmentKind::Padding,
            },
        ]
    } else {
        Seq::empty()
    };
    (Row { start, end, pieces: Seq::empty() }, shown + padding)
}

/// The fragment that shows the characters `start..end` of a plain line.
pub open spec fn plain_fragment(text: Seq<char>, start: int, end: int, column: int) -> Fragment {
    Fragment {
        text: text.subrange(start, end),
        cells: end - start,
        row_column: column,
        display_start: start,
        source: Some(
            Span {
                byte_start: bytes_before(text, start) as usize,
                byte_end: bytes_before(text, end) as usize,
                char_start: start as usize,
                char_end: end as usize,
                grapheme_start: start as usize,
                grapheme_end: end as usize,
            },
        ),
        kind: LayoutFragmentKind::Text,
    }
}

/// The cells of the runs that stand before a character: those anchored before
/// it, or at it where it is a character of the line.
pub open spec fn inline_before(runs: Seq<Run>, k: int, len: int, c: int) -> nat
    decreases k,
{
    if k <= 0 || k > runs.len() {
        0
    } else {
        let r = runs[k - 1];
        inline_before(runs, k - 1, len, c) + if r.anchor < c || (r.anchor == c && r.anchor < len) {
            r.width
        } else {
            0
        }
    }
}

/// The first row, from the `k`th on, that starts behind a display column.
pub open spec fn first_row_behind(rows: Seq<Row>, k: int, display: int) -> int
    decreases rows.len() - k,
{
    if k < 0 || k >= rows.len() || rows[k].start > display {
        k
    } else {
        first_row_behind(rows, k + 1, display)
    }
}

/// The column at which a row shows a display column: inside the last of its
/// fragments that starts at or before it.
pub open spec fn column_in(pieces: Seq<FragmentPlan>, k: int, display: int, found: int) -> int
    decreases pieces.len() - k,
{
    if k < 0 || k >= pieces.len() || pieces[k].display_start > display {
        found
    } else {
        let p = pieces[k];
        let inside = display - p.display_start;
        column_in(
            pieces,
            k + 1,
            display,
            sat(
                p.row_column + if inside < p.cells {
                    inside
                } else {
                    p.cells as int
                },
            ),
        )
    }
}

/// Where a display column shows in the rows. A column that fills its row
/// shows at the start of the next one.
pub open spec fn rich_position(rows: Seq<Row>, width: int, display: int) -> (int, int) {
    let behind = first_row_behind(rows, 0, display);
    let row = if behind > 0 {
        behind - 1
    } else {
        0
    };
    let column = column_in(rows[row].pieces, 0, display, 0);
    if column >= width {
        (row + 1, 0)
    } else {
        (row, column)
    }
}

/// The runs with one more, behind those anchored at or before it.
pub open spec fn insert_run(runs: Seq<Run>, r: Run) -> Seq<Run> {
    runs.insert(run_slot(runs, runs.len() as int, r.anchor), r)
}

/// The slot behind the last of the first `k` runs anchored at or before `a`.
pub open spec fn run_slot(runs: Seq<Run>, k: int, a: int) -> int
    decreases k,
{
    if k <= 0 || k > runs.len() || runs[k - 1].anchor <= a {
        k
    } else {
        run_slot(runs, k - 1, a)
    }
}

/// The first `k` runs in the order of their anchors; runs with one anchor
/// keep their order.
pub open spec fn sorted_runs(runs: Seq<Run>, k: int) -> Seq<Run>
    decreases k,
{
    if k <= 0 || k > runs.len() {
        Seq::empty()
    } else {
        insert_run(sorted_runs(runs, k - 1), runs[k - 1])
    }
}

/// The runs that `(anchor, width)` pairs describe.
pub open spec fn width_runs(widths: Seq<(usize, usize)>) -> Seq<Run> {
    Seq::new(
        widths.len(),
        |i: int|
            Run {
                anchor: widths[i].0 as int,
                width: widths[i].1 as nat,
                index: i as usize,
                clusters: None,
            },
    )
}

/// The runs that `(anchor, text)` pairs describe.
pub open spec fn text_runs(texts: Seq<(usize, String)>) -> Seq<Run> {
    Seq::new(
        texts.len(),
        |i: int|
            {
                let clusters = graphemes_of(texts[i].1@);
                Run {
                    anchor: texts[i].0 as int,
                    width: inline_cells(clusters, clusters.len() as int),
                    index: i as usize,
                    clusters: Some(clusters),
                }
            },
    )
}

/// The sum of the first `k` widths.
pub open spec fn width_sum(widths: Seq<(usize, usize)>, k: int) -> nat
    decreases k,
{
    if k <= 0 || k > widths.len() {
        0
    } else {
        width_sum(widths, k - 1) + widths[k - 1].1 as nat
    }
}

/// The most cells that the first `k` texts can take: two for each character.
pub open spec fn text_sum(texts: Seq<(usize, String)>, k: int) -> nat
    decreases k,
{
    if k <= 0 || k > texts.len() {
        0
    } else {
        text_sum(texts, k - 1) + 2 * texts[k - 1].1@.len()
    }
}

proof fn slot_is(runs: Seq<Run>, k: int, a: int)
    requires
        0 <= k <= runs.len(),
    ensures
        0 <= run_slot(runs, k, a) <= k,
    decreases k,
{
    if k > 0 && runs[k - 1].anchor > a {
        slot_is(runs, k - 1, a);
    }
}

/// Sorting keeps the runs' number and cells.
pub proof fn sorted_runs_keep_cells(runs: Seq<Run>, k: int)
    requires
        0 <= k <= runs.len(),
    ensures
        sorted_runs(runs, k).len() == k,
        runs_cells(sorted_runs(runs, k), k) == runs_cells(runs, k),
    decreases k,
{
    if k > 0 {
        sorted_runs_keep_cells(runs, k - 1);
        let s = sorted_runs(runs, k - 1);
        let r = runs[k - 1];
        slot_is(s, s.len() as int, r.anchor);
        let at = run_slot(s, s.len() as int, r.anchor);
        inserted_cells(s, at, r, k);
    }
}

proof fn inserted_cells(s: Seq<Run>, at: int, r: Run, k: int)
    requires
        0 <= at <= s.len(),
        0 <= k <= s.len() + 1,
    ensures
        k <= at ==> runs_cells(s.insert(at, r), k) == runs_cells(s, k),
        k > at ==> runs_cells(s.insert(at, r), k) == runs_cells(s, k - 1) + run_cells(r),
    decreases k,
{
    if k > 0 {
        inserted_cells(s, at, r, k - 1);
        if k - 1 < at {
            assert(s.insert(at, r)[k - 1] == s[k - 1]);
        } else if k - 1 == at {
            assert(s.insert(at, r)[k - 1] == r);
        } else {
            assert(s.insert(at, r)[k - 1] == s[k - 2]);
        }
    }
}

/// Sorted runs are in the order of their anchors.
pub proof fn sorted_runs_are_sorted(runs: Seq<Run>, k: int)
    requires
        0 <= k <= runs.len(),
    ensures
        forall|i: int, j: int|
            0 <= i <= j < sorted_runs(runs, k).len() ==> sorted_runs(runs, k)[i].anchor
                <= sorted_runs(runs, k)[j].anchor,
    decreases k,
{
    if k > 0 {
        sorted_runs_are_sorted(runs, k - 1);
        let s = sorted_runs(runs, k - 1);
        let r = runs[k - 1];
        slot_is(s, s.len() as int, r.anchor);
        slot_splits(s, s.len() as int, r.anchor);
        let at = run_slot(s, s.len() as int, r.anchor);
        let out = s.insert(at, r);
        assert forall|i: int, j: int| 0 <= i <= j < out.len() implies out[i].anchor
            <= out[j].anchor by {
            let si = if i < at {
                s[i]
            } else if i == at {
                r
            } else {
                s[i - 1]
            };
            let sj = if j < at {
                s[j]
            } else if j == at {
                r
            } else {
                s[j - 1]
            };
            assert(out[i] == si);
            assert(out[j] == sj);
            if i < at && j == at {
                assert(s[i].anchor <= s[at - 1].anchor);
            }
        }
    }
}

proof fn slot_splits(s: Seq<Run>, k: int, a: int)
    requires
        0 <= k <= s.len(),
    ensures
        run_slot(s, k, a) > 0 ==> s[run_slot(s, k, a) - 1].anchor <= a,
        forall|j: int| run_slot(s, k, a) <= j < k ==> s[j].anchor > a,
    decreases k,
{
    if k > 0 && s[k - 1].anchor > a {
        slot_splits(s, k - 1, a);
    }
}

/// Puts a run behind those anchored at or before it.
fn insert_sorted(runs: &mut Vec<InlineRun>, run: InlineRun)
    ensures
        runs_model(final(runs)@) == insert_run(runs_model(old(runs)@), run_model(run)),
        final(runs).len() == old(runs).len() + 1,
{
    let mut at: usize = runs.len();
    let ghost model = runs_model(runs@);
    while at > 0 && runs[at - 1].anchor > run.anchor
        invariant
            at <= runs.len(),
            runs@ == old(runs)@,
            model == runs_model(runs@),
            run_slot(model, at as int, run.anchor as int) == run_slot(
                model,
                model.len() as int,
                run.anchor as int,
            ),
        decreases at,
    {
        proof {
            assert(model[at - 1] == run_model(runs@[at - 1]));
        }
        at -= 1;
    }
    proof {
        if at > 0 {
            assert(model[at - 1] == run_model(runs@[at - 1]));
        }
    }
    runs.insert(at, run);
    proof {
        assert(runs_model(runs@) =~= model.insert(at as int, run_model(run)));
    }
}

/// Cached wrap geometry for one line and one width.
#[derive(Debug)]
pub struct IndexedLineLayout {
    line: LineIndex,
    width: usize,
    tab_width: usize,
    inline: Vec<InlineRun>,
    geometry: Geometry,
}

impl IndexedLineLayout {
    /// The characters of the line.
    pub closed spec fn text(self) -> Seq<char> {
        self.line.text()
    }

    /// The inline virtual text, in the order of its anchors.
    pub closed spec fn runs(self) -> Seq<Run> {
        runs_model(self.inline@)
    }

    pub closed spec fn row_width(self) -> int {
        self.width as int
    }

    pub closed spec fn tab_stop(self) -> int {
        self.tab_width as int
    }

    /// Whether the line is laid out by arithmetic alone.
    pub open spec fn is_plain(self) -> bool {
        plain_ascii(self.text()) && self.runs().len() == 0
    }

    /// The visual rows of a line that is not plain.
    pub open spec fn rich(self) -> Seq<Row> {
        rich_rows(self.row_width(), self.tab_stop(), self.text(), self.runs())
    }

    /// How many visual rows the line takes.
    pub open spec fn rows_len(self) -> int {
        if self.is_plain() {
            let len = if self.text().len() > 0 {
                self.text().len() as int
            } else {
                1
            };
            (len + self.row_width() - 1) / self.row_width()
        } else {
            self.rich().len() as int
        }
    }

    #[verifier::type_invariant]
    closed spec fn inv(self) -> bool {
        &&& self.width > 0
        &&& self.tab_width > 0
        &&& cells_bound(self.line.text(), self.line.text().len() as int, self.tab_width as int)
            + runs_cells(runs_model(self.inline@), self.inline.len() as int) + self.width
            <= usize::MAX
        &&& match self.geometry {
            Geometry::PlainAscii { len } => self.is_plain() && len == self.text().len(),
            Geometry::Rich { rows } => !self.is_plain() && rows_model(rows@) == self.rich()
                && rows.len() > 0,
        }
        &&& forall|k: int|
            0 <= k < self.inline.len() ==> run_cells(run_model(#[trigger] self.inline@[k]))
                == self.inline@[k].width
    }

    fn from_runs(
        line: LineIndex,
        width: usize,
        tab_width: usize,
        inline: Vec<InlineRun>,
    ) -> (layout: IndexedLineLayout)
        requires
            width > 0,
            tab_width > 0,
            cells_bound(line.text(), line.text().len() as int, tab_width as int) + runs_cells(
                runs_model(inline@),
                inline.len() as int,
            ) + width <= usize::MAX,
            forall|k: int|
                0 <= k < inline.len() ==> run_cells(run_model(#[trigger] inline@[k]))
                    == inline@[k].width,
        ensures
            layout.text() == line.text(),
            layout.runs() == runs_model(inline@),
            layout.row_width() == width,
            layout.tab_stop() == tab_width,
    {
        let geometry = if line.is_plain_ascii() && inline.len() == 0 {
            Geometry::PlainAscii { len: line.len_chars() }
        } else {
            Geometry::Rich { rows: build_rich_rows(&line, width, tab_width, &inline) }
        };
        IndexedLineLayout { line, width, tab_width, inline, geometry }
    }

    /// Lays a line out with decorations known by anchor and width alone.
    pub fn new(
        line: LineIndex,
        width: usize,
        tab_width: usize,
        inline_widths: Vec<(usize, usize)>,
    ) -> (layout: IndexedLineLayout)
        requires
            cells_bound(
                line.text(),
                line.text().len() as int,
                at_least_one(tab_width as int),
            ) + width_sum(inline_widths@, inline_widths.len() as int) + at_least_one(width as int)
                <= usize::MAX,
        ensures
            layout.text() == line.text(),
            layout.row_width() == at_least_one(width as int),
            layout.tab_stop() == at_least_one(tab_width as int),
            layout.runs() == sorted_runs(
                width_runs(inline_widths@),
                inline_widths.len() as int,
            ),
    {
        let width: usize = if width > 1 {
            width
        } else {
            1
        };
        let tab_width: usize = if tab_width > 1 {
            tab_width
        } else {
            1
        };
        let mut inline: Vec<InlineRun> = Vec::new();
        let ghost all = width_runs(inline_widths@);
        let mut k: usize = 0;
        proof {
            assert(runs_model(inline@) =~= sorted_runs(all, 0));
        }
        while k < inline_widths.len()
            invariant
                k <= inline_widths.len(),
                all == width_runs(inline_widths@),
                runs_model(inline@) == sorted_runs(all, k as int),
                inline.len() == k,
                runs_cells(all, k as int) == width_sum(inline_widths@, k as int),
                forall|j: int|
                    0 <= j < inline.len() ==> run_cells(run_model(#[trigger] inline@[j]))
                        == inline@[j].width,
            decreases inline_widths.len() - k,
        {
            let (anchor, cells) = inline_widths[k];
            let run = InlineRun { anchor, width: cells, original_index: k, text: None };
            let ghost before = inline@;
            proof {
                assert(all[k as int] == run_model(run));
            }
            insert_sorted(&mut inline, run);
            proof {
                keep_widths(before, inline@, run);
            }
            k += 1;
        }
        proof {
            sorted_runs_keep_cells(all, k as int);
        }
        Self::from_runs(line, width, tab_width, inline)
    }

    /// Lays a line out with decorations whose text is known.
    pub fn with_inline_text(
        line: LineIndex,
        width: usize,
        tab_width: usize,
        inline_text: Vec<(usize, String)>,
    ) -> (layout: IndexedLineLayout)
        requires
            cells_bound(
                line.text(),
                line.text().len() as int,
                at_least_one(tab_width as int),
            ) + text_sum(inline_text@, inline_text.len() as int) + at_least_one(width as int)
                <= usize::MAX,
        ensures
            layout.text() == line.text(),
            layout.row_width() == at_least_one(width as int),
            layout.tab_stop() == at_least_one(tab_width as int),
            layout.runs() == sorted_runs(text_runs(inline_text@), inline_text.len() as int),
    {
        let width: usize = if width > 1 {
            width
        } else {
            1
        };
        let tab_width: usize = if tab_width > 1 {
            tab_width
        } else {
            1
        };
        let mut inline: Vec<InlineRun> = Vec::new();
        let ghost all = text_runs(inline_text@);
        let mut k: usize = 0;
        proof {
            assert(runs_model(inline@) =~= sorted_runs(all, 0));
        }
        while k < inline_text.len()
            invariant
                k <= inline_text.len(),
                all == text_runs(inline_text@),
                runs_model(inline@) == sorted_runs(all, k as int),
                inline.len() == k,
                runs_cells(all, k as int) <= text_sum(inline_text@, k as int),
                text_sum(inline_text@, inline_text.len() as int) <= usize::MAX,
                forall|j: int|
                    0 <= j < inline.len() ==> run_cells(run_model(#[trigger] inline@[j]))
                        == inline@[j].width,
            decreases inline_text.len() - k,
        {
            proof {
                text_sum_grows(inline_text@, k + 1, inline_text.len() as int);
            }
            let text = inline_text[k].1.clone();
            let cells: usize = text_cells(text.as_str());
            let run = InlineRun {
                anchor: inline_text[k].0,
                width: cells,
                original_index: k,
                text: Some(text),
            };
            let ghost before = inline@;
            proof {
                assert(all[k as int] == run_model(run));
            }
            insert_sorted(&mut inline, run);
            proof {
                keep_widths(before, inline@, run);
            }
            k += 1;
        }
        proof {
            sorted_runs_keep_cells(all, k as int);
        }
        Self::from_runs(line, width, tab_width, inline)
    }

    pub fn line(&self) -> (line: &LineIndex)
        ensures
            line.text() == self.text(),
    {
        &self.line
    }

    pub fn width(&self) -> (w: usize)
        ensures
            w == self.row_width(),
    {
        self.width
    }

    pub fn tab_width(&self) -> (w: usize)
        ensures
            w == self.tab_stop(),
    {
        self.tab_width
    }

    /// How many visual rows the line takes; never none.
    pub fn row_count(&self) -> (n: usize)
        ensures
            n == self.rows_len(),
            laid_out(*self),
    {
        proof {
            use_type_invariant(self);
            use_type_invariant(&self.line);
            self.line.wf_is();
            self.line.display_bounded(self.line.parts().len() as int, self.tab_width as int);
        }
        match &self.geometry {
            Geometry::PlainAscii { len } => {
                let cells: usize = if *len > 0 {
                    *len
                } else {
                    1
                };
                proof {
                    ceil_div(cells as int, self.width as int);
                }
                (cells - 1) / self.width + 1
            },
            Geometry::Rich { rows } => rows.len(),
        }
    }

    /// The cells of the runs that stand before a character.
    fn inline_width_before(&self, c: usize) -> (w: usize)
        ensures
            w == inline_before(
                self.runs(),
                self.runs().len() as int,
                self.text().len() as int,
                c as int,
            ),
            w <= runs_cells(self.runs(), self.runs().len() as int),
    {
        proof {
            use_type_invariant(self);
        }
        let n: usize = self.line.len_chars();
        let mut total: usize = 0;
        let mut k: usize = 0;
        let ghost runs = self.runs();
        while k < self.inline.len()
            invariant
                k <= self.inline.len() == runs.len(),
                runs == runs_model(self.inline@),
                n == self.text().len(),
                total == inline_before(runs, k as int, n as int, c as int),
                total <= runs_cells(runs, k as int),
                runs_cells(runs, runs.len() as int) <= usize::MAX,
                forall|k: int|
                    0 <= k < self.inline.len() ==> run_cells(run_model(#[trigger] self.inline@[k]))
                        == self.inline@[k].width,
            decreases self.inline.len() - k,
        {
            proof {
                runs_cells_grow(runs, k + 1, runs.len() as int);
                assert(runs[k as int] == run_model(self.inline@[k as int]));
            }
            let run = &self.inline[k];
            if run.anchor < c || (run.anchor == c && run.anchor < n) {
                total += run.width;
            }
            k += 1;
        }
        total
    }

    /// The column of the flat composed line at which a character shows.
    pub open spec fn display_at(self, c: int) -> nat {
        let at = if c < self.text().len() {
            c
        } else {
            self.text().len() as int
        };
        let parts = graphemes_of(self.text());
        display_of(parts, grapheme_col_of(self.text(), at as nat) as int, self.tab_stop())
            + inline_before(
            self.runs(),
            self.runs().len() as int,
            self.text().len() as int,
            at,
        )
    }

    /// Locates a source character position in wrapped visual coordinates.
    /// Inline virtual text anchored before the character contributes to the
    /// result.
    pub fn position_for_char(&self, char_column: usize) -> (pos: VisualPosition)
        ensures
            self.is_plain() ==> pos.row == (self.display_at(char_column as int) as int) / self.row_width()
                && pos.column == (self.display_at(char_column as int) as int) % self.row_width(),
            !self.is_plain() ==> (pos.row as int, pos.column as int) == rich_position(
                self.rich(),
                self.row_width(),
                self.display_at(char_column as int) as int,
            ),
    {
        proof {
            use_type_invariant(self);
            use_type_invariant(&self.line);
        }
        let n: usize = self.line.len_chars();
        let c: usize = if char_column < n {
            char_column
        } else {
            n
        };
        let own: usize = self.line.char_to_display(c, self.tab_width);
        proof {
            clusters_within_is(self.line.parts(), self.line.parts().len() as int, c as int);
            self.line.display_bounded(
                grapheme_col_of(self.text(), c as nat) as int,
                self.tab_width as int,
            );
        }
        let display: usize = own + self.inline_width_before(c);
        match &self.geometry {
            Geometry::PlainAscii { .. } => VisualPosition {
                row: display / self.width,
                column: display % self.width,
            },
            Geometry::Rich { rows } => {
                let ghost model = self.rich();
                let mut behind: usize = 0;
                while behind < rows.len() && rows[behind].display_start <= display
                    invariant
                        behind <= rows.len() == model.len(),
                        model == rows_model(rows@),
                        first_row_behind(model, behind as int, display as int) == first_row_behind(
                            model,
                            0,
                            display as int,
                        ),
                    decreases rows.len() - behind,
                {
                    proof {
                        assert(model[behind as int] == row_model(rows@[behind as int]));
                    }
                    behind += 1;
                }
                proof {
                    if behind < rows.len() {
                        assert(model[behind as int] == row_model(rows@[behind as int]));
                    }
                }
                let row: usize = if behind > 0 {
                    behind - 1
                } else {
                    0
                };
                let pieces = &rows[row].fragments;
                proof {
                    assert(model[row as int] == row_model(rows@[row as int]));
                }
                let mut column: usize = 0;
                let mut k: usize = 0;
                while k < pieces.len() && pieces[k].display_start <= display
                    invariant
                        k <= pieces.len(),
                        column_in(pieces@, k as int, display as int, column as int) == column_in(
                            pieces@,
                            0,
                            display as int,
                            0,
                        ),
                    decreases pieces.len() - k,
                {
                    let piece = pieces[k];
                    let inside: usize = display - piece.display_start;
                    let step: usize = if inside < piece.cells {
                        inside
                    } else {
                        piece.cells
                    };
                    column = piece.row_column.saturating_add(step);
                    k += 1;
                }
                if column >= self.width {
                    VisualPosition { row: row + 1, column: 0 }
                } else {
                    VisualPosition { row, column }
                }
            },
        }
    }

    /// The range of flat composed columns that a visual row takes. Padding is
    /// no part of it.
    pub fn display_range_for_row(&self, row: usize) -> (res: Option<Range<usize>>)
        ensures
            laid_out(*self),
            match res {
                Some(r) => row < self.rows_len() && row_range(*self, row as int) == (
                    r.start as int,
                    r.end as int,
                ),
                None => row >= self.rows_len(),
            },
    {
        proof {
            use_type_invariant(self);
        }
        if row >= self.row_count() {
            return None;
        }
        match &self.geometry {
            Geometry::PlainAscii { len } => {
                proof {
                    row_fits(row as int, self.width as int, *len as int);
                }
                let start: usize = row * self.width;
                let end: usize = if *len - start <= self.width {
                    *len
                } else {
                    start + self.width
                };
                Some(start..end)
            },
            Geometry::Rich { rows } => {
                proof {
                    assert(self.rich()[row as int] == row_model(rows@[row as int]));
                }
                let plan = &rows[row];
                Some(plan.display_start..plan.display_end)
            },
        }
    }
}

/// The first row, among those of a plain line, starts inside the line.
proof fn row_fits(row: int, width: int, len: int)
    requires
        width > 0,
        len >= 0,
        0 <= row < ((if len > 0 { len } else { 1 }) + width - 1) / width,
    ensures
        0 <= row * width <= len,
        len > 0 ==> row * width < len,
{
    let l = if len > 0 {
        len
    } else {
        1
    };
    assert(row * width < l) by (nonlinear_arith)
        requires
            width > 0,
            0 <= row < (l + width - 1) / width,
    ;
    assert(0 <= row * width) by (nonlinear_arith)
        requires
            width > 0,
            0 <= row,
    ;
}

proof fn ceil_div(a: int, b: int)
    requires
        a > 0,
        b > 0,
    ensures
        (a - 1) / b + 1 == (a + b - 1) / b,
{
    assert((a + b - 1) / b == (a - 1) / b + 1) by (nonlinear_arith)
        requires
            b > 0,
    ;
}

proof fn keep_widths(before: Seq<InlineRun>, after: Seq<InlineRun>, run: InlineRun)
    requires
        runs_model(after) == insert_run(runs_model(before), run_model(run)),
        run_cells(run_model(run)) == run.width,
        forall|j: int|
            0 <= j < before.len() ==> run_cells(run_model(#[trigger] before[j]))
                == before[j].width,
    ensures
        forall|j: int|
            0 <= j < after.len() ==> run_cells(run_model(#[trigger] after[j])) == after[j].width,
{
    let b = runs_model(before);
    let a = runs_model(after);
    let r = run_model(run);
    slot_is(b, b.len() as int, r.anchor);
    let at = run_slot(b, b.len() as int, r.anchor);
    assert(a.len() == after.len() && b.len() == before.len());
    assert(a == b.insert(at, r));
    assert forall|j: int| 0 <= j < after.len() implies run_cells(run_model(#[trigger] after[j]))
        == after[j].width by {
        assert(a[j] == run_model(after[j]));
        if j < at {
            assert(a[j] == b[j]);
            assert(b[j] == run_model(before[j]));
        } else if j > at {
            assert(a[j] == b[j - 1]);
            assert(b[j - 1] == run_model(before[j - 1]));
        }
    }
}

pub open spec fn at_least_one(n: int) -> int {
    if n > 1 {
        n
    } else {
        1
    }
}

proof fn text_sum_grows(texts: Seq<(usize, String)>, i: int, j: int)
    requires
        0 <= i <= j <= texts.len(),
    ensures
        text_sum(texts, i) <= text_sum(texts, j),
    decreases j - i,
{
    if i < j {
        text_sum_grows(texts, i, j - 1);
    }
}

/// How many cells a text takes, cluster by cluster.
fn text_cells(text: &str) -> (w: usize)
    requires
        2 * text@.len() <= usize::MAX,
    ensures
        w == inline_cells(graphemes_of(text@), graphemes_of(text@).len() as int),
        w <= 2 * text@.len(),
{
    let parts = graphemes(text);
    let ghost v = views(parts@);
    let mut w: usize = 0;
    let mut k: usize = 0;
    proof {
        concat_length(v);
        assert(forall|k: int| 0 <= k < v.len() ==> (#[trigger] v[k]) == parts@[k]@);
        chars_before_grows(v, 0, v.len() as int);
    }
    while k < parts.len()
        invariant
            k <= parts.len() <= text@.len(),
            v == views(parts@),
            w == inline_cells(v, k as int),
            w <= 2 * k,
            2 * text@.len() <= usize::MAX,
        decreases parts.len() - k,
    {
        proof {
            assert(v[k as int] == parts@[k as int]@);
        }
        w += grapheme_display_width(parts[k].as_str());
        k += 1;
    }
    w
}

/// `n` blanks.
pub fn blank_text(n: usize) -> (s: String)
    ensures
        s@ == blanks(n as int),
{
    let mut s = String::new();
    let mut k: usize = 0;
    proof {
        assert(s@ =~= blanks(0));
    }
    while k < n
        invariant
            k <= n,
            s@ == blanks(k as int),
        decreases n - k,
    {
        s.push(' ');
        k += 1;
        proof {
            assert(s@ =~= blanks(k as int));
        }
    }
    s
}

/// The clusters of virtual text that show in the cells from `start` to `end`.
fn inline_text_cells(text: &str, start: usize, end: usize) -> (out: String)
    requires
        inline_cells(graphemes_of(text@), graphemes_of(text@).len() as int) <= usize::MAX,
    ensures
        out@ == inline_text(
            graphemes_of(text@),
            graphemes_of(text@).len() as int,
            start as int,
            end as int,
        ),
{
    let parts = graphemes(text);
    let ghost v = views(parts@);
    let mut out = String::new();
    let mut display: usize = 0;
    let mut k: usize = 0;
    while k < parts.len()
        invariant
            k <= parts.len(),
            v == views(parts@),
            display == inline_cells(v, k as int),
            inline_cells(v, v.len() as int) <= usize::MAX,
            out@ == inline_text(v, k as int, start as int, end as int),
        decreases parts.len() - k,
    {
        proof {
            assert(v[k as int] == parts@[k as int]@);
            inline_cells_grow(v, k + 1, v.len() as int);
        }
        let next: usize = display + grapheme_display_width(parts[k].as_str());
        if next > start && display < end {
            out.append(parts[k].as_str());
        }
        display = next;
        k += 1;
    }
    out
}

pub open spec fn min_of(a: int, b: int) -> int {
    if a < b {
        a
    } else {
        b
    }
}

pub open spec fn max_of(a: int, b: int) -> int {
    if a < b {
        b
    } else {
        a
    }
}

fn min(a: usize, b: usize) -> (m: usize)
    ensures
        m == min_of(a as int, b as int),
{
    if a < b {
        a
    } else {
        b
    }
}

fn max(a: usize, b: usize) -> (m: usize)
    ensures
        m == max_of(a as int, b as int),
{
    if a < b {
        b
    } else {
        a
    }
}

fn source_span(s: Span) -> (res: SourceSpan)
    ensures
        span_of(res) == s,
{
    SourceSpan {
        bytes: s.byte_start..s.byte_end,
        chars: s.char_start..s.char_end,
        graphemes: s.grapheme_start..s.grapheme_end,
    }
}

fn source_option(s: Option<Span>) -> (res: Option<SourceSpan>)
    ensures
        match res {
            Some(r) => s == Some(span_of(r)),
            None => s is None,
        },
{
    match s {
        Some(s) => Some(source_span(s)),
        None => None,
    }
}

/// Whether a planned fragment shows in a window of flat columns: it overlaps
/// the window, or takes no cells and stands in it.
pub open spec fn shows_in(start: int, cells: int, from: int, to: int) -> bool {
    !((cells > 0 && sat(start + cells) <= from) || start >= to || (cells == 0 && start < from))
}

/// The part of a planned text fragment that a window shows: whole clusters,
/// from the one that covers the window's left edge to the one that covers its
/// right edge.
pub open spec fn clipped_text(
    p: FragmentPlan,
    text: Seq<char>,
    tab_width: int,
    from: int,
    to: int,
) -> Option<Fragment> {
    let parts = graphemes_of(text);
    let display = |c: int|
        display_of(parts, grapheme_col_of(text, c as nat) as int, tab_width) as int;
    let start = max_of(p.display_start as int, from);
    let end = min_of(sat(p.display_start + p.cells), to);
    let s = p.source->0;
    let content = display(s.char_start as int);
    let content_from = sat(content + (start - p.display_start));
    let content_to = sat(content + (end - p.display_start));
    let char_from = max_of(
        chars_before(parts, cluster_covering(parts, 0, content_from, tab_width)) as int,
        s.char_start as int,
    );
    let covered = min_of(
        chars_before(parts, cluster_covering(parts, 0, content_to, tab_width)) as int,
        s.char_end as int,
    );
    let char_to = if covered < s.char_end && display(covered) < content_to {
        min_of(
            char_col_of(text, grapheme_col_of(text, covered as nat) + 1) as int,
            s.char_end as int,
        )
    } else {
        covered
    };
    if char_from >= char_to {
        None
    } else {
        let shown = display(char_from);
        let at = sat(p.display_start + max_of(shown - content, 0));
        Some(
            Fragment {
                text: slice_of(text, char_from, char_to),
                cells: max_of(display(char_to) - shown, 0),
                row_column: max_of(at - from, 0),
                display_start: at,
                source: Some(
                    Span {
                        byte_start: bytes_before(text, char_from) as usize,
                        byte_end: bytes_before(text, char_to) as usize,
                        char_start: char_from as usize,
                        char_end: char_to as usize,
                        grapheme_start: grapheme_col_of(text, char_from as nat) as usize,
                        grapheme_end: grapheme_col_of(text, char_to as nat) as usize,
                    },
                ),
                kind: LayoutFragmentKind::Text,
            },
        )
    }
}

/// What a window of flat columns shows of a planned fragment. Tabs and
/// decorations are cut at the window's edges, clusters are not.
pub open spec fn clipped(
    p: FragmentPlan,
    text: Seq<char>,
    runs: Seq<Run>,
    tab_width: int,
    from: int,
    to: int,
) -> Option<Fragment> {
    let start = max_of(p.display_start as int, from);
    let end = min_of(sat(p.display_start + p.cells), to);
    let whole = plan_fragment(p, text, runs);
    if p.kind is Padding || !shows_in(p.display_start as int, p.cells as int, from, to) {
        None
    } else if p.cells == 0 {
        if p.kind is Text {
            Some(Fragment { row_column: max_of(p.display_start - from, 0), ..whole })
        } else {
            None
        }
    } else {
        match p.kind {
            LayoutFragmentKind::Text => if p.source is Some && p.source->0.char_end <= text.len() {
                clipped_text(p, text, tab_width, from, to)
            } else {
                None
            },
            LayoutFragmentKind::Tab | LayoutFragmentKind::Padding => Some(
                Fragment {
                    text: blanks(end - start),
                    cells: end - start,
                    display_start: start,
                    row_column: start - from,
                    ..whole
                },
            ),
            LayoutFragmentKind::InlineDecoration { index, cell_offset } => {
                let offset = sat(cell_offset + (start - p.display_start));
                Some(
                    Fragment {
                        text: decoration_text(runs, index, offset, sat(offset + (end - start))),
                        cells: end - start,
                        display_start: start,
                        row_column: start - from,
                        kind: LayoutFragmentKind::InlineDecoration {
                            index,
                            cell_offset: offset as usize,
                        },
                        ..whole
                    },
                )
            },
            LayoutFragmentKind::Control => Some(
                Fragment { row_column: max_of(p.display_start - from, 0), ..whole },
            ),
        }
    }
}

/// What a window shows of the first `k` fragments of a row.
pub open spec fn clipped_pieces(
    pieces: Seq<FragmentPlan>,
    k: int,
    text: Seq<char>,
    runs: Seq<Run>,
    tab_width: int,
    from: int,
    to: int,
) -> Seq<Fragment>
    decreases k,
{
    if k <= 0 || k > pieces.len() {
        Seq::empty()
    } else {
        let before = clipped_pieces(pieces, k - 1, text, runs, tab_width, from, to);
        match clipped(pieces[k - 1], text, runs, tab_width, from, to) {
            Some(f) => before.push(f),
            None => before,
        }
    }
}

/// What a window shows of the rows from `first` up to `k`.
pub open spec fn clipped_rows(
    rows: Seq<Row>,
    first: int,
    k: int,
    text: Seq<char>,
    runs: Seq<Run>,
    tab_width: int,
    from: int,
    to: int,
) -> Seq<Fragment>
    decreases k,
{
    if k <= first || k <= 0 || k > rows.len() {
        Seq::empty()
    } else {
        let p = rows[k - 1].pieces;
        clipped_rows(rows, first, k - 1, text, runs, tab_width, from, to) + clipped_pieces(
            p,
            p.len() as int,
            text,
            runs,
            tab_width,
            from,
            to,
        )
    }
}

/// The first row, from the `k`th on, that ends behind a display column.
pub open spec fn first_row_ending_behind(rows: Seq<Row>, k: int, display: int) -> int
    decreases rows.len() - k,
{
    if k < 0 || k >= rows.len() || rows[k].end > display {
        k
    } else {
        first_row_ending_behind(rows, k + 1, display)
    }
}

/// The fragments of a visual row.
pub open spec fn plan_fragments(
    pieces: Seq<FragmentPlan>,
    text: Seq<char>,
    runs: Seq<Run>,
) -> Seq<Fragment> {
    pieces.map_values(|p: FragmentPlan| plan_fragment(p, text, runs))
}

impl IndexedLineLayout {
    /// The bounds of visual row `i` and the fragments that it shows.
    pub open spec fn shown_row(self, i: int) -> (Row, Seq<Fragment>) {
        if self.is_plain() {
            plain_row(self.text(), self.row_width(), i)
        } else {
            let row = self.rich()[i];
            (row, plan_fragments(row.pieces, self.text(), self.runs()))
        }
    }

    /// What a window of the flat composed line shows.
    pub open spec fn window(self, from: int, to: int) -> Seq<Fragment> {
        if from >= to {
            Seq::empty()
        } else if self.is_plain() {
            let start = min_of(from, self.text().len() as int);
            let end = max_of(min_of(to, self.text().len() as int), start);
            if start == end {
                Seq::empty()
            } else {
                seq![plain_fragment(self.text(), start, end, start - from)]
            }
        } else {
            let rows = self.rich();
            clipped_rows(
                rows,
                first_row_ending_behind(rows, 0, from),
                rows.len() as int,
                self.text(),
                self.runs(),
                self.tab_stop(),
                from,
                to,
            )
        }
    }

    /// The virtual text of a decoration between two of its cells.
    fn decoration_cells(&self, index: usize, start: usize, end: usize) -> (out: String)
        ensures
            out@ == decoration_text(self.runs(), index, start as int, end as int),
    {
        proof {
            use_type_invariant(self);
        }
        let ghost runs = self.runs();
        let mut k: usize = 0;
        while k < self.inline.len()
            invariant
                k <= self.inline.len(),
                runs == runs_model(self.inline@),
                runs_cells(runs, runs.len() as int) <= usize::MAX,
                self.runs() == runs,
                run_with_index(runs, k as int, index) == run_with_index(runs, 0, index),
            decreases self.inline.len() - k,
        {
            let run = &self.inline[k];
            proof {
                assert(runs[k as int] == run_model(*run));
                runs_cells_grow(runs, k + 1, runs.len() as int);
            }
            if run.original_index == index {
                return match &run.text {
                    Some(text) => inline_text_cells(text.as_str(), start, end),
                    None => String::new(),
                };
            }
            k += 1;
        }
        String::new()
    }

    fn materialize(&self, plan: &FragmentPlan) -> (f: LayoutFragment)
        ensures
            fragment_model(f) == plan_fragment(*plan, self.text(), self.runs()),
    {
        let text = match plan.kind {
            LayoutFragmentKind::Text => match plan.source {
                Some(s) => self.line.slice_chars(s.char_start, s.char_end),
                None => String::new(),
            },
            LayoutFragmentKind::Tab | LayoutFragmentKind::Padding => blank_text(plan.cells),
            LayoutFragmentKind::Control => match plan.source {
                Some(s) => {
                    let shown = self.line.slice_chars(s.char_start, s.char_end);
                    let mut out = String::new();
                    if shown.as_str().unicode_len() > 0 {
                        let first = shown.as_str().get_char(0);
                        if let Some(pair) = control_char_caret(first) {
                            out.push(pair.0);
                            out.push(pair.1);
                            proof {
                                assert(out@ =~= seq![pair.0, pair.1]);
                            }
                        }
                    }
                    out
                },
                None => String::new(),
            },
            LayoutFragmentKind::InlineDecoration { index, cell_offset } => self.decoration_cells(
                index,
                cell_offset,
                cell_offset.saturating_add(plan.cells),
            ),
        };
        proof {
            assert(text@ =~= plan_text(*plan, self.text(), self.runs()));
        }
        LayoutFragment {
            text,
            cells: plan.cells,
            row_column: plan.row_column,
            display_start: plan.display_start,
            source: source_option(plan.source),
            kind: plan.kind,
        }
    }

    /// The fragment that shows the characters `start..end` of a plain line.
    fn plain_text(&self, start: usize, end: usize, row_column: usize) -> (f: LayoutFragment)
        requires
            start <= end <= self.text().len(),
        ensures
            fragment_model(f) == plain_fragment(
                self.text(),
                start as int,
                end as int,
                row_column as int,
            ),
    {
        proof {
            use_type_invariant(&self.line);
            self.line.wf_is();
            bytes_grow(self.text(), start as int, end as int);
            bytes_grow(self.text(), end as int, self.text().len() as int);
        }
        LayoutFragment {
            text: self.line.slice_chars(start, end),
            cells: end - start,
            row_column,
            display_start: start,
            source: Some(
                SourceSpan {
                    bytes: self.line.char_to_byte(start)..self.line.char_to_byte(end),
                    chars: start..end,
                    graphemes: start..end,
                },
            ),
            kind: LayoutFragmentKind::Text,
        }
    }

    fn plain_layout_row(&self, index: usize) -> (row: LayoutRow)
        requires
            self.is_plain(),
            index < self.rows_len(),
        ensures
            is_row(row, self.shown_row(index as int), index as int),
    {
        proof {
            use_type_invariant(self);
            row_fits(index as int, self.width as int, self.text().len() as int);
        }
        let len: usize = self.line.len_chars();
        let start: usize = index * self.width;
        let end: usize = if len - start <= self.width {
            len
        } else {
            start + self.width
        };
        let mut fragments: Vec<LayoutFragment> = Vec::new();
        if start < end {
            fragments.push(self.plain_text(start, end, 0));
        }
        let shown: usize = end - start;
        if shown < self.width {
            fragments.push(
                LayoutFragment {
                    text: blank_text(self.width - shown),
                    cells: self.width - shown,
                    row_column: shown,
                    display_start: end,
                    source: None,
                    kind: LayoutFragmentKind::Padding,
                },
            );
        }
        proof {
            assert(fragments_model(fragments@) =~= self.shown_row(index as int).1);
        }
        LayoutRow { index, display_start: start, display_end: end, fragments }
    }

    /// Puts together only the requested visual rows. Decorations without a
    /// text carry geometry and an ordinal; the frontend supplies their text.
    pub fn row_fragments(&self, requested: Range<usize>) -> (out: Vec<LayoutRow>)
        ensures
            out.len() == max_of(
                min_of(requested.end as int, self.rows_len()) - requested.start,
                0,
            ),
            forall|i: int|
                0 <= i < out.len() ==> is_row(
                    #[trigger] out@[i],
                    self.shown_row(requested.start + i),
                    requested.start + i,
                ),
    {
        let count: usize = self.row_count();
        let end: usize = min(requested.end, count);
        let mut out: Vec<LayoutRow> = Vec::new();
        if requested.start >= end {
            return out;
        }
        proof {
            use_type_invariant(self);
        }
        let mut index: usize = requested.start;
        while index < end
            invariant
                requested.start <= index <= end <= self.rows_len(),
                out.len() == index - requested.start,
                match self.geometry {
                    Geometry::PlainAscii { len } => self.is_plain(),
                    Geometry::Rich { rows } => !self.is_plain() && rows_model(rows@)
                        == self.rich(),
                },
                forall|i: int|
                    0 <= i < out.len() ==> is_row(
                        #[trigger] out@[i],
                        self.shown_row(requested.start + i),
                        requested.start + i,
                    ),
            decreases end - index,
        {
            let row = match &self.geometry {
                Geometry::PlainAscii { .. } => self.plain_layout_row(index),
                Geometry::Rich { rows } => {
                    let plan = &rows[index];
                    let ghost model = self.rich()[index as int];
                    proof {
                        assert(model == row_model(*plan));
                    }
                    let mut fragments: Vec<LayoutFragment> = Vec::new();
                    let mut k: usize = 0;
                    while k < plan.fragments.len()
                        invariant
                            k <= plan.fragments.len(),
                            fragments_model(fragments@) == plan_fragments(
                                plan.fragments@.take(k as int),
                                self.text(),
                                self.runs(),
                            ),
                        decreases plan.fragments.len() - k,
                    {
                        let f = self.materialize(&plan.fragments[k]);
                        let ghost earlier = fragments@;
                        fragments.push(f);
                        k += 1;
                        proof {
                            assert(plan.fragments@.take(k as int) =~= plan.fragments@.take(
                                k - 1,
                            ).push(plan.fragments@[k - 1]));
                            assert(fragments_model(fragments@) =~= fragments_model(earlier).push(
                                fragment_model(f),
                            ));
                            assert(fragments_model(fragments@) =~= plan_fragments(
                                plan.fragments@.take(k as int),
                                self.text(),
                                self.runs(),
                            ));
                        }
                    }
                    proof {
                        assert(plan.fragments@.take(k as int) =~= plan.fragments@);
                    }
                    LayoutRow {
                        index,
                        display_start: plan.display_start,
                        display_end: plan.display_end,
                        fragments,
                    }
                },
            };
            out.push(row);
            index += 1;
        }
        out
    }

    fn clip_text(&self, plan: &FragmentPlan, from: usize, to: usize) -> (f: Option<LayoutFragment>)
        requires
            from < to,
            plan.kind is Text,
            plan.cells > 0,
            plan.source is Some,
            plan.source->0.char_end <= self.text().len(),
            shows_in(plan.display_start as int, plan.cells as int, from as int, to as int),
        ensures
            option_model(f) == clipped_text(
                *plan,
                self.text(),
                self.tab_stop(),
                from as int,
                to as int,
            ),
    {
        proof {
            use_type_invariant(self);
            use_type_invariant(&self.line);
            self.line.wf_is();
        }
        let s = match plan.source {
            Some(s) => s,
            None => return None,
        };
        let start: usize = max(plan.display_start, from);
        let end: usize = min(plan.display_start.saturating_add(plan.cells), to);
        let content: usize = self.line.char_to_display(s.char_start, self.tab_width);
        let content_from: usize = content.saturating_add(start - plan.display_start);
        let content_to: usize = content.saturating_add(end - plan.display_start);
        let char_from: usize = max(
            self.line.display_to_char(content_from, self.tab_width),
            s.char_start,
        );
        let covered: usize = min(
            self.line.display_to_char(content_to, self.tab_width),
            s.char_end,
        );
        let char_to: usize = if covered < s.char_end && self.line.char_to_display(
            covered,
            self.tab_width,
        ) < content_to {
            let cluster = self.line.char_to_grapheme(CharCol(covered));
            min(self.line.grapheme_to_char(GraphemeCol(cluster.0 + 1)).0, s.char_end)
        } else {
            covered
        };
        if char_from >= char_to {
            return None;
        }
        let shown: usize = self.line.char_to_display(char_from, self.tab_width);
        let shown_end: usize = self.line.char_to_display(char_to, self.tab_width);
        let at: usize = plan.display_start.saturating_add(shown.saturating_sub(content));
        proof {
            bytes_grow(self.text(), char_from as int, char_to as int);
            bytes_grow(self.text(), char_to as int, self.text().len() as int);
        }
        Some(
            LayoutFragment {
                text: self.line.slice_chars(char_from, char_to),
                cells: shown_end.saturating_sub(shown),
                row_column: at.saturating_sub(from),
                display_start: at,
                source: Some(
                    SourceSpan {
                        bytes: self.line.char_to_byte(char_from)..self.line.char_to_byte(char_to),
                        chars: char_from..char_to,
                        graphemes: self.line.char_to_grapheme(
                            CharCol(char_from),
                        ).0..self.line.char_to_grapheme(CharCol(char_to)).0,
                    },
                ),
                kind: LayoutFragmentKind::Text,
            },
        )
    }

    fn materialize_clipped(&self, plan: &FragmentPlan, from: usize, to: usize) -> (f: Option<
        LayoutFragment,
    >)
        requires
            from < to,
        ensures
            option_model(f) == clipped(
                *plan,
                self.text(),
                self.runs(),
                self.tab_stop(),
                from as int,
                to as int,
            ),
    {
        let padding = match plan.kind {
            LayoutFragmentKind::Padding => true,
            _ => false,
        };
        let plan_end: usize = plan.display_start.saturating_add(plan.cells);
        if padding || (plan.cells > 0 && plan_end <= from) || plan.display_start >= to || (
        plan.cells == 0 && plan.display_start < from) {
            return None;
        }
        let start: usize = max(plan.display_start, from);
        let end: usize = min(plan_end, to);
        if plan.cells == 0 {
            return match plan.kind {
                LayoutFragmentKind::Text => {
                    let mut f = self.materialize(plan);
                    f.row_column = plan.display_start.saturating_sub(from);
                    Some(f)
                },
                _ => None,
            };
        }
        match plan.kind {
            LayoutFragmentKind::Text => match plan.source {
                Some(s) => if s.char_end <= self.line.len_chars() {
                    self.clip_text(plan, from, to)
                } else {
                    None
                },
                None => None,
            },
            LayoutFragmentKind::Tab | LayoutFragmentKind::Padding => Some(
                LayoutFragment {
                    text: blank_text(end - start),
                    cells: end - start,
                    row_column: start - from,
                    display_start: start,
                    source: source_option(plan.source),
                    kind: plan.kind,
                },
            ),
            LayoutFragmentKind::InlineDecoration { index, cell_offset } => {
                let offset: usize = cell_offset.saturating_add(start - plan.display_start);
                Some(
                    LayoutFragment {
                        text: self.decoration_cells(
                            index,
                            offset,
                            offset.saturating_add(end - start),
                        ),
                        cells: end - start,
                        row_column: start - from,
                        display_start: start,
                        source: source_option(plan.source),
                        kind: LayoutFragmentKind::InlineDecoration { index, cell_offset: offset },
                    },
                )
            },
            LayoutFragmentKind::Control => {
                let mut f = self.materialize(plan);
                f.row_column = plan.display_start.saturating_sub(from);
                Some(f)
            },
        }
    }

    /// Puts together the fragments intersecting a range of flat composed
    /// columns: the viewport path without wrapping. Row padding is ignored.
    pub fn fragments_for_display_range(&self, requested: Range<usize>) -> (out: Vec<LayoutFragment>)
        ensures
            fragments_model(out@) == self.window(requested.start as int, requested.end as int),
    {
        proof {
            use_type_invariant(self);
        }
        let from: usize = requested.start;
        let to: usize = requested.end;
        let mut out: Vec<LayoutFragment> = Vec::new();
        if from >= to {
            proof {
                assert(fragments_model(out@) =~= self.window(from as int, to as int));
            }
            return out;
        }
        match &self.geometry {
            Geometry::PlainAscii { len } => {
                let start: usize = min(from, *len);
                let end: usize = max(min(to, *len), start);
                if start != end {
                    out.push(self.plain_text(start, end, start - from));
                }
                proof {
                    assert(fragments_model(out@) =~= self.window(from as int, to as int));
                }
            },
            Geometry::Rich { rows } => {
                let ghost model = self.rich();
                let ghost text = self.text();
                let ghost runs = self.runs();
                let ghost tab = self.tab_stop();
                let mut first: usize = 0;
                while first < rows.len() && rows[first].display_end <= from
                    invariant
                        first <= rows.len() == model.len(),
                        model == rows_model(rows@),
                        first_row_ending_behind(model, first as int, from as int)
                            == first_row_ending_behind(model, 0, from as int),
                    decreases rows.len() - first,
                {
                    proof {
                        assert(model[first as int] == row_model(rows@[first as int]));
                    }
                    first += 1;
                }
                proof {
                    if first < rows.len() {
                        assert(model[first as int] == row_model(rows@[first as int]));
                    }
                    assert(fragments_model(out@) =~= clipped_rows(
                        model,
                        first as int,
                        first as int,
                        text,
                        runs,
                        tab,
                        from as int,
                        to as int,
                    ));
                }
                let mut i: usize = first;
                while i < rows.len()
                    invariant
                        first <= i <= rows.len() == model.len(),
                        from < to,
                        model == rows_model(rows@),
                        text == self.text(),
                        runs == self.runs(),
                        tab == self.tab_stop(),
                        fragments_model(out@) == clipped_rows(
                            model,
                            first as int,
                            i as int,
                            text,
                            runs,
                            tab,
                            from as int,
                            to as int,
                        ),
                    decreases rows.len() - i,
                {
                    let pieces = &rows[i].fragments;
                    let ghost before = fragments_model(out@);
                    proof {
                        assert(model[i as int] == row_model(rows@[i as int]));
                        assert(before + Seq::<Fragment>::empty() =~= before);
                    }
                    let mut k: usize = 0;
                    while k < pieces.len()
                        invariant
                            k <= pieces.len(),
                            from < to,
                            text == self.text(),
                            runs == self.runs(),
                            tab == self.tab_stop(),
                            fragments_model(out@) == before + clipped_pieces(
                                pieces@,
                                k as int,
                                text,
                                runs,
                                tab,
                                from as int,
                                to as int,
                            ),
                        decreases pieces.len() - k,
                    {
                        if let Some(f) = self.materialize_clipped(&pieces[k], from, to) {
                            let ghost earlier = out@;
                            out.push(f);
                            proof {
                                assert(fragments_model(out@) =~= fragments_model(earlier).push(
                                    fragment_model(f),
                                ));
                            }
                        }
                        k += 1;
                        proof {
                            assert(fragments_model(out@) =~= before + clipped_pieces(
                                pieces@,
                                k as int,
                                text,
                                runs,
                                tab,
                                from as int,
                                to as int,
                            ));
                        }
                    }
                    i += 1;
                }
            },
        }
        out
    }
}

pub open spec fn option_model(f: Option<LayoutFragment>) -> Option<Fragment> {
    match f {
        Some(f) => Some(fragment_model(f)),
        None => None,
    }
}

/// `row` is visual row `index` with the given bounds and fragments.
pub open spec fn is_row(row: LayoutRow, shown: (Row, Seq<Fragment>), index: int) -> bool {
    &&& row.index == index
    &&& row.display_start == shown.0.start
    &&& row.display_end == shown.0.end
    &&& fragments_model(row.fragments@) == shown.1
}

/// Two text fragments that can be shown as one.
pub open spec fn fragments_join(a: Fragment, b: Fragment) -> bool {
    &&& a.kind is Text
    &&& b.kind is Text
    &&& a.display_start + a.cells == b.display_start
    &&& a.source is Some
    &&& b.source is Some
    &&& spans_adjoin(a.source->0, b.source->0)
}

/// The fragments with one more; text that continues the last extends it.
pub open spec fn with_fragment(list: Seq<Fragment>, f: Fragment) -> Seq<Fragment> {
    if list.len() > 0 && fragments_join(list.last(), f) {
        let last = list.last();
        list.drop_last().push(
            Fragment {
                text: last.text + f.text,
                cells: sat(last.cells + f.cells),
                source: Some(spans_joined(last.source->0, f.source->0)),
                ..last
            },
        )
    } else {
        list.push(f)
    }
}

/// What a window of a line without decorations shows of cluster `k`.
pub open spec fn cluster_fragment(
    text: Seq<char>,
    k: int,
    tab_width: int,
    from: int,
    to: int,
) -> Option<Fragment> {
    let parts = graphemes_of(text);
    let start = display_of(parts, k, tab_width) as int;
    let cells = cells_at(parts[k], start, tab_width) as int;
    let span = Some(cluster_span(text, k));
    if parts[k] == seq!['\t'] {
        let left = max_of(start, from);
        let right = min_of(start + cells, to);
        if left >= right {
            None
        } else {
            Some(
                Fragment {
                    text: blanks(right - left),
                    cells: right - left,
                    row_column: left - from,
                    display_start: left,
                    source: span,
                    kind: LayoutFragmentKind::Tab,
                },
            )
        }
    } else if !shows_in(start, cells, from, to) {
        None
    } else if parts[k].len() == 1 && caret_of(parts[k][0]) is Some {
        Some(
            Fragment {
                text: caret_of(parts[k][0])->0,
                cells,
                row_column: max_of(start - from, 0),
                display_start: start,
                source: span,
                kind: LayoutFragmentKind::Control,
            },
        )
    } else {
        Some(
            Fragment {
                text: parts[k],
                cells,
                row_column: max_of(start - from, 0),
                display_start: start,
                source: span,
                kind: LayoutFragmentKind::Text,
            },
        )
    }
}

/// What a window shows of the first `k` clusters of a line.
pub open spec fn source_window(
    text: Seq<char>,
    k: int,
    tab_width: int,
    from: int,
    to: int,
) -> Seq<Fragment>
    decreases k,
{
    if k <= 0 || k > graphemes_of(text).len() {
        Seq::empty()
    } else {
        let before = source_window(text, k - 1, tab_width, from, to);
        match cluster_fragment(text, k - 1, tab_width, from, to) {
            Some(f) => with_fragment(before, f),
            None => before,
        }
    }
}

fn push_materialized_fragment(out: &mut Vec<LayoutFragment>, f: LayoutFragment)
    ensures
        fragments_model(final(out)@) == with_fragment(fragments_model(old(out)@), fragment_model(f)),
{
    let ghost before = fragments_model(out@);
    match out.pop() {
        None => {
            out.push(f);
            proof {
                assert(fragments_model(out@) =~= before.push(fragment_model(f)));
            }
        },
        Some(mut last) => {
            let ghost m = fragment_model(last);
            proof {
                assert(m == before.last());
                assert(fragments_model(out@) =~= before.drop_last());
            }
            let join = match (last.kind, f.kind, &last.source, &f.source) {
                (LayoutFragmentKind::Text, LayoutFragmentKind::Text, Some(a), Some(b)) =>
                    if f.display_start >= last.cells && last.display_start == f.display_start
                        - last.cells && a.bytes.end == b.bytes.start && a.chars.end
                        == b.chars.start && a.graphemes.end == b.graphemes.start {
                        Some(
                            SourceSpan {
                                bytes: a.bytes.start..b.bytes.end,
                                chars: a.chars.start..b.chars.end,
                                graphemes: a.graphemes.start..b.graphemes.end,
                            },
                        )
                    } else {
                        None
                    },
                _ => None,
            };
            proof {
                assert(join is Some <==> fragments_join(m, fragment_model(f)));
            }
            match join {
                Some(span) => {
                    last.text.append(f.text.as_str());
                    last.cells = last.cells.saturating_add(f.cells);
                    last.source = Some(span);
                    out.push(last);
                },
                None => {
                    out.push(last);
                    out.push(f);
                },
            }
            proof {
                assert(fragments_model(out@) =~= with_fragment(before, fragment_model(f)));
            }
        },
    }
}

/// Bounded projection, without wrapping, of a line that has no decorations.
pub fn source_fragments_for_display_range(
    line: &LineIndex,
    tab_width: usize,
    requested: Range<usize>,
) -> (out: Vec<LayoutFragment>)
    requires
        cells_bound(line.text(), line.text().len() as int, at_least_one(tab_width as int))
            <= usize::MAX,
    ensures
        requested.start >= requested.end ==> out.len() == 0,
        requested.start < requested.end ==> fragments_model(out@) == source_window(
            line.text(),
            line.parts().len() as int,
            at_least_one(tab_width as int),
            requested.start as int,
            requested.end as int,
        ),
{
    let from: usize = requested.start;
    let to: usize = requested.end;
    let mut out: Vec<LayoutFragment> = Vec::new();
    if from >= to {
        return out;
    }
    let tab: usize = max(tab_width, 1);
    let n: usize = line.grapheme_count();
    let ghost text = line.text();
    let ghost parts = line.parts();
    let mut start: usize = 0;
    let mut k: usize = 0;
    proof {
        use_type_invariant(line);
        line.wf_is();
        assert(fragments_model(out@) =~= source_window(text, 0, tab as int, from as int, to as int));
    }
    while k < n
        invariant
            line.wf(),
            text == line.text(),
            parts == line.parts(),
            k <= n == parts.len(),
            tab > 0,
            from < to,
            start == display_of(parts, k as int, tab as int),
            cells_bound(text, text.len() as int, tab as int) <= usize::MAX,
            fragments_model(out@) == source_window(
                text,
                k as int,
                tab as int,
                from as int,
                to as int,
            ),
        decreases n - k,
    {
        proof {
            line.wf_is();
            line.display_bounded(k + 1, tab as int);
            chars_before_grows(parts, k as int, k + 1);
        }
        let cells: usize = line.cluster_cells(k, start, tab);
        let char_start: usize = line.grapheme_to_char(GraphemeCol(k)).0;
        let char_end: usize = line.grapheme_to_char(GraphemeCol(k + 1)).0;
        proof {
            bytes_grow(text, char_start as int, char_end as int);
            bytes_grow(text, char_end as int, text.len() as int);
        }
        let source = Some(
            SourceSpan {
                bytes: line.char_to_byte(char_start)..line.char_to_byte(char_end),
                chars: char_start..char_end,
                graphemes: k..k + 1,
            },
        );
        proof {
            assert(span_of(source->0) == cluster_span(text, k as int));
        }
        let cluster = line.cluster(k);
        let single = cluster.unicode_len() == 1;
        let first = cluster.get_char(0);
        proof {
            assert(single ==> cluster@ =~= seq![first]);
            assert(seq!['\t'].len() == 1 && seq!['\t'][0] == '\t');
        }
        let end: usize = start + cells;
        let row_column: usize = start.saturating_sub(from);
        let hidden = (cells > 0 && end <= from) || start >= to || (cells == 0 && start < from);
        if single && first == '\t' {
            let left: usize = max(start, from);
            let right: usize = min(end, to);
            if left < right {
                let f = LayoutFragment {
                    text: blank_text(right - left),
                    cells: right - left,
                    row_column: left - from,
                    display_start: left,
                    source,
                    kind: LayoutFragmentKind::Tab,
                };
                push_materialized_fragment(&mut out, f);
            }
        } else if !hidden {
            let caret = if single {
                control_char_caret(first)
            } else {
                None
            };
            let f = match caret {
                Some(pair) => {
                    let mut shown = String::new();
                    shown.push(pair.0);
                    shown.push(pair.1);
                    proof {
                        assert(shown@ =~= seq![pair.0, pair.1]);
                    }
                    LayoutFragment {
                        text: shown,
                        cells,
                        row_column,
                        display_start: start,
                        source,
                        kind: LayoutFragmentKind::Control,
                    }
                },
                None => LayoutFragment {
                    text: cluster.to_owned(),
                    cells,
                    row_column,
                    display_start: start,
                    source,
                    kind: LayoutFragmentKind::Text,
                },
            };
            proof {
                assert(cluster_fragment(text, k as int, tab as int, from as int, to as int)
                    == Some(fragment_model(f)));
            }
            push_materialized_fragment(&mut out, f);
        }
        start = end;
        k += 1;
    }
    out
}

} // verus!
