//! Layout of the branch review buffer: a summary header, a toolbar, then the
//! patch in either a unified or a side-by-side layout.
//!
//! Every rendered line records where its text came from ([`ReviewRow`]), so
//! that a jump to the source, navigation and a refresh find the same change in
//! either layout.
use crate::diff_review::highlight::{marks, Mark, PatchHighlights};
use crate::display::{cluster_width, grapheme_display_width};
use crate::fmt::{
    byte_count, byte_len, decimal, digits, join, joined, opt_view, repeat_char, repeated,
    same_option, split_breaks, text_line, text_line_count, text_lines,
};
use crate::highlight_index::Highlight;
use crate::lines::{
    content_end, line_break_is, line_content, line_start, line_start_is, raw_line_count,
};
use crate::native_diff::{
    additions_of, capped, deletions_of, BaseKind, CustomReview, DiffFile, PatchLine, PatchLineKind,
    ReviewPatch, ReviewSection, ReviewSectionLine,
};
use crate::syntax::HighlightGroup;
use crate::text::{chars_of, matches_at, same_text, slice_string, starts_with};
use crate::text_index::{char_bytes, utf8_width};
use crate::unicode::{concat, grapheme_count, graphemes, graphemes_of, views};
use std::ops::Range;
use vstd::prelude::*;

verus! {

/// Display-name prefix by which frontends know a review buffer.
pub const DIFF_REVIEW_TITLE_PREFIX: &'static str = "Diff · ";

/// Width of the side-by-side view before the editor has rendered once.
pub const DEFAULT_LAYOUT_WIDTH: usize = 120;

/// Narrowest code column the side-by-side view will lay out.
pub const MIN_SPLIT_TEXT_WIDTH: usize = 8;

/// Rows one side-by-side line may wrap to.
pub const MAX_WRAP_ROWS: usize = 12;

pub const KEY_HINT: &'static str = "# Enter open at cursor · ]c [c hunk · ]f [f file · o overlay · O saved · r refresh · q close · <Space>gf fetch base";

/// How the patch body is laid out.
#[derive(Debug, Clone, Copy, PartialEq, Eq, Structural)]
pub enum DiffLayout {
    /// One column, raw patch text.
    Unified,
    /// Old on the left, new on the right, with source line numbers.
    Split,
}

impl Default for DiffLayout {
    fn default() -> (l: Self)
        ensures
            l == DiffLayout::Unified,
    {
        DiffLayout::Unified
    }
}

/// White space that a command argument may be surrounded by.
pub open spec fn is_space(c: char) -> bool {
    crate::unicode::whitespace(c)
}

/// ASCII letters in lower case.
pub open spec fn lowered(c: char) -> char {
    if 'A' <= c <= 'Z' {
        ((c as u32) + 32) as char
    } else {
        c
    }
}

/// The text without the white space around it.
pub open spec fn trimmed(t: Seq<char>) -> Seq<char>
    decreases t.len(),
{
    if t.len() > 0 && is_space(t[0]) {
        trimmed(t.drop_first())
    } else if t.len() > 0 && is_space(t.last()) {
        trimmed(t.drop_last())
    } else {
        t
    }
}

/// The layout that a command argument names.
pub open spec fn layout_named(name: Seq<char>) -> Option<DiffLayout> {
    let n = trimmed(name).map_values(|c: char| lowered(c));
    if n == "unified"@ || n == "u"@ || n == "inline"@ {
        Some(DiffLayout::Unified)
    } else if n == "split"@ || n == "s"@ || n == "side"@ || n == "side-by-side"@ {
        Some(DiffLayout::Split)
    } else {
        None
    }
}

fn trim(cs: &Vec<char>) -> (range: (usize, usize))
    ensures
        range.0 <= range.1 <= cs.len(),
        cs@.subrange(range.0 as int, range.1 as int) == trimmed(cs@),
{
    let mut from: usize = 0;
    let mut to: usize = cs.len();
    proof {
        assert(cs@.subrange(0, to as int) =~= cs@);
    }
    while from < to && crate::unicode::is_whitespace(cs[from])
        invariant
            from <= to == cs.len(),
            trimmed(cs@.subrange(from as int, to as int)) == trimmed(cs@),
        decreases to - from,
    {
        proof {
            assert(cs@.subrange(from as int, to as int).drop_first() =~= cs@.subrange(
                from + 1,
                to as int,
            ));
        }
        from += 1;
    }
    while from < to && crate::unicode::is_whitespace(cs[to - 1])
        invariant
            from <= to <= cs.len(),
            from < to ==> !is_space(cs@[from as int]),
            trimmed(cs@.subrange(from as int, to as int)) == trimmed(cs@),
        decreases to - from,
    {
        proof {
            assert(cs@.subrange(from as int, to as int).drop_last() =~= cs@.subrange(
                from as int,
                to - 1,
            ));
        }
        to -= 1;
    }
    (from, to)
}

/// A text without the white space around it.
pub fn trim_text(text: &str) -> (s: String)
    ensures
        s@ == trimmed(text@),
{
    let cs = chars_of(text);
    let (from, to) = trim(&cs);
    slice_string(&cs, from, to)
}

impl DiffLayout {
    pub open spec fn name(self) -> Seq<char> {
        match self {
            DiffLayout::Unified => "Unified"@,
            DiffLayout::Split => "Split"@,
        }
    }

    pub open spec fn other(self) -> DiffLayout {
        match self {
            DiffLayout::Unified => DiffLayout::Split,
            DiffLayout::Split => DiffLayout::Unified,
        }
    }

    pub fn label(self) -> (s: &'static str)
        ensures
            s@ == self.name(),
    {
        match self {
            DiffLayout::Unified => "Unified",
            DiffLayout::Split => "Split",
        }
    }

    pub fn toggled(self) -> (l: Self)
        ensures
            l == self.other(),
            l != self,
    {
        match self {
            DiffLayout::Unified => DiffLayout::Split,
            DiffLayout::Split => DiffLayout::Unified,
        }
    }

    /// Parses a layout command's argument.
    pub fn parse(name: &str) -> (res: Option<Self>)
        ensures
            res == layout_named(name@),
    {
        let cs = chars_of(name);
        let (from, to) = trim(&cs);
        let mut low = String::new();
        let mut i: usize = from;
        let ghost word = cs@.subrange(from as int, to as int);
        while i < to
            invariant
                from <= i <= to <= cs.len(),
                word == cs@.subrange(from as int, to as int),
                low@ == word.take(i - from).map_values(|c: char| lowered(c)),
            decreases to - i,
        {
            let c = cs[i];
            let code: u32 = c as u32;
            if code >= 65 && code <= 90 {
                let shifted: u8 = code as u8 + 32;
                low.push(shifted as char);
            } else {
                low.push(c);
            }
            i += 1;
            proof {
                assert(low@ =~= word.take(i - from).map_values(|c: char| lowered(c)));
            }
        }
        proof {
            assert(word.take(to - from) =~= word);
        }
        let n = low.as_str();
        if same_text(n, "unified") || same_text(n, "u") || same_text(n, "inline") {
            Some(DiffLayout::Unified)
        } else if same_text(n, "split") || same_text(n, "s") || same_text(n, "side") || same_text(
            n,
            "side-by-side",
        ) {
            Some(DiffLayout::Split)
        } else {
            None
        }
    }
}

/// Switching the layout twice gives the first layout again.
pub proof fn toggling_twice_is_identity(l: DiffLayout)
    ensures
        l.other().other() == l,
{
}

/// A stretch of one patch line rendered inside a row.
#[derive(Debug, Clone, Copy, PartialEq, Eq, Structural)]
pub struct ReviewCell {
    pub info: PatchLine,
    /// Index of the source line in the patch.
    pub patch_line: usize,
    /// Byte range of the region this cell paints, used for its tint.
    pub bytes_start: usize,
    pub bytes_end: usize,
    /// Grapheme column in the row where the cell's source text starts.
    pub text_col: usize,
    /// Graphemes of source text this row shows for the cell.
    pub text_len: usize,
    /// Glyph index in the source body at which this row's text begins;
    /// non-zero only on wrapped continuation rows.
    pub src_glyph: usize,
}

impl ReviewCell {
    /// The cell's text covers a column; a cell without text covers its first.
    pub open spec fn covers(self, col: int) -> bool {
        self.text_col <= col && (col < self.text_col + self.text_len || (self.text_len == 0 && col
            == self.text_col))
    }

    fn contains(&self, col: usize) -> (res: bool)
        ensures
            res == self.covers(col as int),
    {
        col >= self.text_col && (col - self.text_col < self.text_len || (self.text_len == 0 && col
            == self.text_col))
    }
}

/// One rendered buffer line: header rows carry no cell, unified rows one, and
/// side-by-side rows the old side, the new side, or both.
#[derive(Debug, Clone, Copy, PartialEq, Eq, Structural)]
pub struct ReviewRow {
    pub left: Option<ReviewCell>,
    pub right: Option<ReviewCell>,
}

/// A tint of a row: a byte range, and whether it was added.
pub open spec fn tint_of(cell: Option<ReviewCell>) -> Seq<(usize, usize, bool)> {
    match cell {
        Some(c) => match c.info.kind {
            PatchLineKind::Added => seq![(c.bytes_start, c.bytes_end, true)],
            PatchLineKind::Removed => seq![(c.bytes_start, c.bytes_end, false)],
            _ => Seq::empty(),
        },
        None => Seq::empty(),
    }
}

impl ReviewRow {
    pub open spec fn blank() -> ReviewRow {
        ReviewRow { left: None, right: None }
    }

    pub open spec fn of_cell(cell: ReviewCell) -> ReviewRow {
        ReviewRow { left: Some(cell), right: None }
    }

    /// The cell the cursor sits in: the one covering `col`, else the last one
    /// starting at or before it (so the padding after a cell still belongs to
    /// it), else whichever side exists.
    pub open spec fn cell_for(self, col: int) -> Option<ReviewCell> {
        if self.left is Some && self.left->0.covers(col) {
            self.left
        } else if self.right is Some && self.right->0.covers(col) {
            self.right
        } else if self.right is Some && self.right->0.text_col <= col {
            self.right
        } else if self.left is Some {
            self.left
        } else {
            self.right
        }
    }

    /// The patch line this row primarily represents.
    pub fn info(&self) -> (res: Option<PatchLine>)
        ensures
            res == match (self.left, self.right) {
                (Some(cell), _) => Some(cell.info),
                (None, Some(cell)) => Some(cell.info),
                (None, None) => None,
            },
    {
        match (self.left, self.right) {
            (Some(cell), _) => Some(cell.info),
            (None, Some(cell)) => Some(cell.info),
            (None, None) => None,
        }
    }

    /// The cell the cursor sits in.
    pub fn cell_at(&self, col: usize) -> (res: Option<ReviewCell>)
        ensures
            res == self.cell_for(col as int),
    {
        if let Some(left) = self.left {
            if left.contains(col) {
                return self.left;
            }
        }
        if let Some(right) = self.right {
            if right.contains(col) || right.text_col <= col {
                return self.right;
            }
        }
        match self.left {
            Some(_) => self.left,
            None => self.right,
        }
    }

    /// The byte ranges of the row to tint, and whether each was added.
    pub fn tints(&self) -> (out: Vec<(Range<usize>, bool)>)
        ensures
            out@.map_values(|t: (Range<usize>, bool)| (t.0.start, t.0.end, t.1)) == tint_of(
                self.left,
            ) + tint_of(self.right),
    {
        let mut out: Vec<(Range<usize>, bool)> = Vec::new();
        if let Some(c) = self.left {
            match c.info.kind {
                PatchLineKind::Added => out.push((c.bytes_start..c.bytes_end, true)),
                PatchLineKind::Removed => out.push((c.bytes_start..c.bytes_end, false)),
                _ => {},
            }
        }
        if let Some(c) = self.right {
            match c.info.kind {
                PatchLineKind::Added => out.push((c.bytes_start..c.bytes_end, true)),
                PatchLineKind::Removed => out.push((c.bytes_start..c.bytes_end, false)),
                _ => {},
            }
        }
        proof {
            assert(out@.map_values(|t: (Range<usize>, bool)| (t.0.start, t.0.end, t.1)) =~= tint_of(
                self.left,
            ) + tint_of(self.right));
        }
        out
    }
}

/// The clickable layout switch drawn above the patch.
#[derive(Debug)]
pub struct Toolbar {
    /// Buffer line the toolbar occupies.
    pub line: usize,
    /// Grapheme columns and layout of each button.
    pub buttons: Vec<(Range<usize>, DiffLayout)>,
}

/// The layout of the first button, from the `k`th on, that covers a column.
pub open spec fn button_at(buttons: Seq<(Range<usize>, DiffLayout)>, k: int, col: int) -> Option<
    DiffLayout,
>
    decreases buttons.len() - k,
{
    if k < 0 || k >= buttons.len() {
        None
    } else if buttons[k].0.start <= col < buttons[k].0.end {
        Some(buttons[k].1)
    } else {
        button_at(buttons, k + 1, col)
    }
}

impl Toolbar {
    /// The layout a click selects, if any.
    pub fn hit(&self, line: usize, col: usize) -> (res: Option<DiffLayout>)
        ensures
            res == if line == self.line {
                button_at(self.buttons@, 0, col as int)
            } else {
                None
            },
    {
        if line != self.line {
            return None;
        }
        let mut k: usize = 0;
        while k < self.buttons.len()
            invariant
                k <= self.buttons.len(),
                line == self.line,
                button_at(self.buttons@, k as int, col as int) == button_at(
                    self.buttons@,
                    0,
                    col as int,
                ),
            decreases self.buttons.len() - k,
        {
            if self.buttons[k].0.start <= col && col < self.buttons[k].0.end {
                return Some(self.buttons[k].1);
            }
            k += 1;
        }
        None
    }
}

/// Source coordinates for a displayed row of a rearranged review. A paired
/// row can point to different files on its two sides.
#[derive(Debug)]
pub struct CustomTarget {
    pub old: Option<(String, usize)>,
    pub new: Option<(String, usize)>,
}

/// Everything a render produces for the review buffer.
#[derive(Debug)]
pub struct Rendered {
    pub title: String,
    pub text: String,
    pub rows: Vec<ReviewRow>,
    /// Buffer line and file index for each row of the file summary.
    pub stat_rows: Vec<(usize, usize)>,
    pub hunk_lines: Vec<usize>,
    pub file_lines: Vec<usize>,
    pub toolbar: Toolbar,
    pub highlights: Vec<Vec<Highlight>>,
    pub code_highlights: Vec<Vec<Highlight>>,
    pub custom_targets: Vec<Option<CustomTarget>>,
}

/// One rendered grapheme of a patch line body.
///
/// A tab expands to several glyphs that all point back at the tab, so a
/// cursor anywhere in the indentation resolves to the tab character.
#[derive(Debug)]
pub struct Glyph {
    /// Byte offset of the source grapheme this glyph renders.
    pub src_byte: usize,
    pub text: String,
    pub width: usize,
}

/// A model of a glyph.
pub ghost struct GlyphModel {
    pub src: int,
    pub text: Seq<char>,
    pub width: nat,
}

pub open spec fn glyph_models(glyphs: Seq<Glyph>) -> Seq<GlyphModel> {
    glyphs.map_values(
        |g: Glyph| GlyphModel { src: g.src_byte as int, text: g.text@, width: g.width as nat },
    )
}

/// How many bytes the first `k` clusters take.
pub open spec fn cluster_bytes(parts: Seq<Seq<char>>, k: int) -> nat
    decreases k,
{
    if k <= 0 || k > parts.len() {
        0
    } else {
        capped(cluster_bytes(parts, k - 1) + byte_count(parts[k - 1]))
    }
}

pub open spec fn at_least(n: int, least: int) -> int {
    if n < least {
        least
    } else {
        n
    }
}

/// The glyphs of the first `k` clusters and the column behind them. A tab
/// that is expanded becomes one glyph for each cell up to the next tab stop.
pub open spec fn body_glyphs(parts: Seq<Seq<char>>, k: int, tab_width: int, expand: bool) -> (
    Seq<GlyphModel>,
    nat,
)
    decreases k,
{
    if k <= 0 || k > parts.len() {
        (Seq::empty(), 0)
    } else {
        let (before, column) = body_glyphs(parts, k - 1, tab_width, expand);
        let src = cluster_bytes(parts, k - 1) as int;
        let cluster = parts[k - 1];
        if expand && cluster == seq!['\t'] {
            let cells = tab_width - column as int % tab_width;
            (
                before + Seq::new(
                    cells as nat,
                    |i: int| GlyphModel { src, text: seq![' '], width: 1 },
                ),
                capped((column + cells) as nat),
            )
        } else {
            let width = at_least(cluster_width(cluster) as int, 1) as nat;
            (before.push(GlyphModel { src, text: cluster, width }), capped(column + width))
        }
    }
}

/// The glyphs that a body is rendered as.
pub open spec fn glyphs_of(body: Seq<char>, tab_width: int, expand: bool) -> Seq<GlyphModel> {
    let parts = graphemes_of(body);
    body_glyphs(parts, parts.len() as int, at_least(tab_width, 1), expand).0
}

/// Splits a patch line body into rendered glyphs.
///
/// The side-by-side layout pads to fixed columns, so it must know the exact
/// width of everything it draws: tabs are expanded here. The unified layout
/// keeps the raw text so the buffer still yanks as a valid patch.
pub fn layout_body(body: &str, tab_width: usize, expand_tabs: bool) -> (glyphs: Vec<Glyph>)
    ensures
        glyph_models(glyphs@) == glyphs_of(body@, tab_width as int, expand_tabs),
        forall|i: int| 0 <= i < glyphs.len() ==> 1 <= (#[trigger] glyphs@[i]).width <= 2,
        !expand_tabs ==> glyph_text(glyph_models(glyphs@), 0, glyphs.len() as int) == body@,
{
    let tab: usize = if tab_width < 1 {
        1
    } else {
        tab_width
    };
    let parts = graphemes(body);
    let ghost v = views(parts@);
    let mut glyphs: Vec<Glyph> = Vec::new();
    let mut column: usize = 0;
    let mut offset: usize = 0;
    let mut k: usize = 0;
    proof {
        assert(glyph_models(glyphs@) =~= body_glyphs(v, 0, tab as int, expand_tabs).0);
    }
    while k < parts.len()
        invariant
            k <= parts.len(),
            tab > 0,
            v == views(parts@),
            offset == cluster_bytes(v, k as int),
            (glyph_models(glyphs@), column as nat) == body_glyphs(
                v,
                k as int,
                tab as int,
                expand_tabs,
            ),
            forall|i: int| 0 <= i < glyphs.len() ==> 1 <= (#[trigger] glyphs@[i]).width <= 2,
        decreases parts.len() - k,
    {
        let cluster = parts[k].as_str();
        let ghost before = glyph_models(glyphs@);
        proof {
            assert(v[k as int] == cluster@);
            assert(seq!['\t'].len() == 1 && seq!['\t'][0] == '\t');
        }
        let is_tab = cluster.unicode_len() == 1 && cluster.get_char(0) == '\t';
        proof {
            assert(is_tab <==> cluster@ =~= seq!['\t']);
        }
        if expand_tabs && is_tab {
            let cells: usize = tab - column % tab;
            let mut i: usize = 0;
            proof {
                assert(glyph_models(glyphs@) =~= before + Seq::new(
                    0nat,
                    |i: int| GlyphModel { src: offset as int, text: seq![' '], width: 1 },
                ));
            }
            while i < cells
                invariant
                    i <= cells,
                    glyph_models(glyphs@) == before + Seq::new(
                        i as nat,
                        |i: int| GlyphModel { src: offset as int, text: seq![' '], width: 1 },
                    ),
                    forall|i: int|
                        0 <= i < glyphs.len() ==> 1 <= (#[trigger] glyphs@[i]).width <= 2,
                decreases cells - i,
            {
                let text = repeat_char(' ', 1);
                proof {
                    assert(text@ =~= seq![' ']);
                }
                let ghost earlier = glyph_models(glyphs@);
                glyphs.push(Glyph { src_byte: offset, text, width: 1 });
                i += 1;
                proof {
                    assert(glyph_models(glyphs@) =~= earlier.push(
                        GlyphModel { src: offset as int, text: seq![' '], width: 1 },
                    ));
                    assert(glyph_models(glyphs@) =~= before + Seq::new(
                        i as nat,
                        |i: int| GlyphModel { src: offset as int, text: seq![' '], width: 1 },
                    ));
                }
            }
            column = column.saturating_add(cells);
        } else {
            let measured: usize = grapheme_display_width(cluster);
            let width: usize = if measured < 1 {
                1
            } else {
                measured
            };
            glyphs.push(Glyph { src_byte: offset, text: cluster.to_owned(), width });
            column = column.saturating_add(width);
            proof {
                assert(glyph_models(glyphs@) =~= before.push(
                    GlyphModel { src: offset as int, text: cluster@, width: width as nat },
                ));
            }
        }
        offset = offset.saturating_add(byte_len(cluster));
        k += 1;
    }
    proof {
        if !expand_tabs {
            raw_glyphs(v, k as int, tab as int);
            raw_glyph_text(v, glyph_models(glyphs@), k as int);
            assert(v.take(k as int) =~= v);
        }
    }
    glyphs
}

/// Without expanded tabs there is one glyph for each cluster.
proof fn raw_glyphs(parts: Seq<Seq<char>>, k: int, tab_width: int)
    requires
        0 <= k <= parts.len(),
    ensures
        body_glyphs(parts, k, tab_width, false).0.len() == k,
        forall|i: int|
            0 <= i < k ==> (#[trigger] body_glyphs(parts, k, tab_width, false).0[i]).text
                == parts[i],
    decreases k,
{
    if k > 0 {
        raw_glyphs(parts, k - 1, tab_width);
    }
}

proof fn raw_glyph_text(parts: Seq<Seq<char>>, glyphs: Seq<GlyphModel>, k: int)
    requires
        0 <= k <= parts.len(),
        k <= glyphs.len(),
        forall|i: int| 0 <= i < glyphs.len() ==> (#[trigger] glyphs[i]).text == parts[i],
    ensures
        glyph_text(glyphs, 0, k) == concat(parts.take(k)),
    decreases k,
{
    if k > 0 {
        raw_glyph_text(parts, glyphs, k - 1);
        assert(parts.take(k).drop_last() =~= parts.take(k - 1));
    }
}

/// Where the runs begin among the first `k` glyphs, the start of the run in
/// progress, and the columns it uses. A run takes another glyph as long as it
/// fits, and always one.
pub open spec fn chunks(glyphs: Seq<GlyphModel>, k: int, width: int) -> (
    Seq<(int, int)>,
    int,
    int,
)
    decreases k,
{
    if k <= 0 || k > glyphs.len() {
        (Seq::empty(), 0, 0)
    } else {
        let (runs, start, used) = chunks(glyphs, k - 1, width);
        let w = glyphs[k - 1].width as int;
        if used > 0 && used + w > width {
            (runs.push((start, k - 1)), k - 1, w)
        } else {
            (runs, start, used + w)
        }
    }
}

/// The runs, none wider than `width` columns, that glyphs are shown in.
pub open spec fn runs_of(glyphs: Seq<GlyphModel>, width: int) -> Seq<(int, int)> {
    let (runs, start, used) = chunks(glyphs, glyphs.len() as int, at_least(width, 1));
    runs.push((start, glyphs.len() as int))
}

pub open spec fn run_pairs(runs: Seq<Range<usize>>) -> Seq<(int, int)> {
    runs.map_values(|r: Range<usize>| (r.start as int, r.end as int))
}

/// Splits glyphs into runs no wider than `width` display columns. Always
/// returns at least one (possibly empty) run.
pub fn chunk_glyphs(glyphs: &Vec<Glyph>, width: usize) -> (runs: Vec<Range<usize>>)
    ensures
        run_pairs(runs@) == runs_of(glyph_models(glyphs@), width as int),
        runs.len() > 0,
        forall|i: int|
            0 <= i < runs.len() ==> (#[trigger] runs@[i]).start <= runs@[i].end
                && runs@[i].end <= glyphs.len(),
{
    let width: usize = if width < 1 {
        1
    } else {
        width
    };
    let ghost g = glyph_models(glyphs@);
    let mut runs: Vec<Range<usize>> = Vec::new();
    let mut start: usize = 0;
    let mut used: usize = 0;
    let mut index: usize = 0;
    proof {
        assert(run_pairs(runs@) =~= Seq::<(int, int)>::empty());
    }
    while index < glyphs.len()
        invariant
            index <= glyphs.len(),
            start <= index,
            width > 0,
            g == glyph_models(glyphs@),
            chunks(g, index as int, width as int) == (
                run_pairs(runs@),
                start as int,
                used as int,
            ),
            forall|i: int|
                0 <= i < runs.len() ==> (#[trigger] runs@[i]).start <= runs@[i].end
                    && runs@[i].end <= index,
        decreases glyphs.len() - index,
    {
        let w: usize = glyphs[index].width;
        let ghost before = run_pairs(runs@);
        proof {
            assert(g[index as int].width == w);
        }
        if used > 0 && (used > width || w > width - used) {
            runs.push(start..index);
            start = index;
            used = w;
            proof {
                assert(run_pairs(runs@) =~= before.push((runs@.last().start as int, index as int)));
            }
        } else {
            used += w;
        }
        index += 1;
    }
    let ghost before = run_pairs(runs@);
    runs.push(start..glyphs.len());
    proof {
        assert(run_pairs(runs@) =~= before.push((start as int, glyphs.len() as int)));
    }
    runs
}

/// How wide the glyphs from `from` to `to` are.
pub open spec fn run_width(glyphs: Seq<GlyphModel>, from: int, to: int) -> int
    decreases to - from,
{
    if from >= to {
        0
    } else {
        run_width(glyphs, from, to - 1) + glyphs[to - 1].width
    }
}

proof fn chunks_tile(glyphs: Seq<GlyphModel>, k: int, width: int)
    requires
        0 <= k <= glyphs.len(),
        width > 0,
        forall|i: int| 0 <= i < glyphs.len() ==> (#[trigger] glyphs[i]).width > 0,
    ensures
        ({
            let (runs, start, used) = chunks(glyphs, k, width);
            &&& 0 <= start <= k
            &&& used == run_width(glyphs, start, k)
            &&& k > 0 ==> start < k
            &&& k - start > 1 ==> used <= width
            &&& runs.len() == 0 ==> start == 0
            &&& runs.len() > 0 ==> runs[0].0 == 0 && runs.last().1 == start
            &&& forall|i: int|
                0 <= i < runs.len() ==> (#[trigger] runs[i]).0 < runs[i].1 && (runs[i].1 - runs[i].0
                    > 1 ==> run_width(glyphs, runs[i].0, runs[i].1) <= width)
            &&& forall|i: int| 0 <= i < runs.len() - 1 ==> (#[trigger] runs[i]).1 == runs[i + 1].0
        }),
    decreases k,
{
    if k > 0 {
        chunks_tile(glyphs, k - 1, width);
        let (runs, start, used) = chunks(glyphs, k - 1, width);
        let w = glyphs[k - 1].width as int;
        assert(glyphs[k - 1].width > 0);
        if used > 0 && used + w > width {
            assert(start < k - 1);
            assert(run_width(glyphs, k - 1, k - 1) == 0);
            assert(run_width(glyphs, k - 1, k) == w);
            let more = runs.push((start, k - 1));
            assert(forall|i: int| 0 <= i < runs.len() ==> more[i] == runs[i]);
            assert(more[runs.len() as int] == (start, k - 1));
            assert forall|i: int| 0 <= i < more.len() - 1 implies (#[trigger] more[i]).1 == more[i
                + 1].0 by {
                if i < runs.len() - 1 {
                    assert(runs[i].1 == runs[i + 1].0);
                }
            }
        } else {
            if start < k - 1 {
                positive_width(glyphs, start, k - 1);
            }
            assert(run_width(glyphs, start, k) == run_width(glyphs, start, k - 1) + w);
        }
    } else {
        assert(run_width(glyphs, 0, 0) == 0);
    }
}

proof fn positive_width(glyphs: Seq<GlyphModel>, from: int, to: int)
    requires
        0 <= from < to <= glyphs.len(),
        forall|i: int| 0 <= i < glyphs.len() ==> (#[trigger] glyphs[i]).width > 0,
    ensures
        run_width(glyphs, from, to) > 0,
    decreases to - from,
{
    assert(glyphs[to - 1].width > 0);
    assert(run_width(glyphs, from, to) == run_width(glyphs, from, to - 1) + glyphs[to - 1].width);
    if to - 1 > from {
        positive_width(glyphs, from, to - 1);
    } else {
        assert(run_width(glyphs, from, from) == 0);
    }
}

/// The runs show every glyph once and in order, and each that holds more than
/// one glyph fits its columns.
pub proof fn runs_partition_the_body(glyphs: Seq<GlyphModel>, width: int)
    requires
        forall|i: int| 0 <= i < glyphs.len() ==> (#[trigger] glyphs[i]).width > 0,
    ensures
        ({
            let runs = runs_of(glyphs, width);
            &&& runs.len() > 0
            &&& runs[0].0 == 0
            &&& runs.last().1 == glyphs.len()
            &&& forall|i: int| 0 <= i < runs.len() - 1 ==> (#[trigger] runs[i]).1 == runs[i + 1].0
            &&& forall|i: int|
                0 <= i < runs.len() ==> (#[trigger] runs[i]).0 <= runs[i].1 && (runs[i].1
                    - runs[i].0 > 1 ==> run_width(glyphs, runs[i].0, runs[i].1) <= at_least(
                    width,
                    1,
                ))
        }),
{
    chunks_tile(glyphs, glyphs.len() as int, at_least(width, 1));
}

/// A model of a line being rendered: its text, how many graphemes were put
/// into it, and its highlights.
pub ghost struct Line {
    pub text: Seq<char>,
    pub graphemes: nat,
    pub spans: Seq<Mark>,
}

impl Line {
    pub open spec fn new() -> Line {
        Line { text: Seq::empty(), graphemes: 0, spans: Seq::empty() }
    }

    /// The line with a text appended, highlighted as one group.
    pub open spec fn pushed(self, text: Seq<char>, group: Option<HighlightGroup>) -> Line {
        if text.len() == 0 {
            self
        } else {
            Line {
                text: self.text + text,
                graphemes: capped(self.graphemes + graphemes_of(text).len()),
                spans: match group {
                    Some(g) => self.spans.push(
                        (byte_count(self.text) as int, byte_count(self.text + text) as int, g),
                    ),
                    None => self.spans,
                },
            }
        }
    }

    pub open spec fn padded(self, spaces: int) -> Line {
        self.pushed(repeated(' ', spaces), None)
    }
}

/// Accumulates one rendered line together with its highlight spans.
struct RowBuilder {
    text: String,
    graphemes: usize,
    spans: Vec<Highlight>,
}

impl RowBuilder {
    spec fn model(self) -> Line {
        Line { text: self.text@, graphemes: self.graphemes as nat, spans: marks(self.spans@) }
    }

    fn new() -> (b: RowBuilder)
        ensures
            b.model() == Line::new(),
    {
        let b = RowBuilder { text: String::new(), graphemes: 0, spans: Vec::new() };
        proof {
            assert(b.model().spans =~= Line::new().spans);
            assert(b.model().text =~= Line::new().text);
        }
        b
    }

    fn push(&mut self, text: &str, group: Option<HighlightGroup>)
        ensures
            final(self).model() == old(self).model().pushed(text@, group),
    {
        if text.unicode_len() == 0 {
            return;
        }
        let start: usize = byte_len(self.text.as_str());
        self.text.append(text);
        if let Some(group) = group {
            let end: usize = byte_len(self.text.as_str());
            self.spans.push((start..end, group));
        }
        self.graphemes = self.graphemes.saturating_add(grapheme_count(text));
        proof {
            assert(self.model().spans =~= old(self).model().pushed(text@, group).spans);
        }
    }

    fn pad(&mut self, spaces: usize)
        ensures
            final(self).model() == old(self).model().padded(spaces as int),
    {
        if spaces > 0 {
            self.push(repeat_char(' ', spaces).as_str(), None);
        }
    }
}

/// A model of what one side of a row shows.
pub ghost struct Cell {
    pub info: PatchLine,
    pub patch_line: usize,
    pub glyphs: Seq<GlyphModel>,
    pub from: int,
    pub to: int,
    pub code: Seq<Mark>,
    pub number: Option<usize>,
    pub number_width: int,
    pub marker: Option<char>,
    pub pad_to: Option<usize>,
    pub elided: bool,
}

/// The most specific of the first `k` spans that cover a byte, with its
/// length; the earlier one among equals.
pub open spec fn best_group(code: Seq<Mark>, k: int, src: int) -> Option<(HighlightGroup, int)>
    decreases k,
{
    if k <= 0 || k > code.len() {
        None
    } else {
        let before = best_group(code, k - 1, src);
        let (start, end, group) = code[k - 1];
        if start <= src < end && (before is None || end - start < (before->0).1) {
            Some((group, end - start))
        } else {
            before
        }
    }
}

/// The highlight group of a glyph.
pub open spec fn group_of(code: Seq<Mark>, g: GlyphModel) -> Option<HighlightGroup> {
    match best_group(code, code.len() as int, g.src) {
        Some((group, len)) => Some(group),
        None => None,
    }
}

/// How far the glyphs from `i` on fit into the columns that are left.
pub open spec fn fitting_end(glyphs: Seq<GlyphModel>, i: int, to: int, left: int) -> int
    decreases to - i,
{
    if i < to && 0 <= i < glyphs.len() && glyphs[i].width <= left {
        fitting_end(glyphs, i + 1, to, left - glyphs[i].width)
    } else {
        i
    }
}

/// The end of the stretch of glyphs, up to `to`, that share a group from `j` on.
pub open spec fn group_end(
    glyphs: Seq<GlyphModel>,
    code: Seq<Mark>,
    group: Option<HighlightGroup>,
    j: int,
    to: int,
) -> int
    decreases to - j,
{
    if j < to && 0 <= j < glyphs.len() && group_of(code, glyphs[j]) == group {
        group_end(glyphs, code, group, j + 1, to)
    } else {
        j
    }
}

/// The texts of the glyphs from `from` to `to`.
pub open spec fn glyph_text(glyphs: Seq<GlyphModel>, from: int, to: int) -> Seq<char>
    decreases to - from,
{
    if from >= to {
        Seq::empty()
    } else {
        glyph_text(glyphs, from, to - 1) + glyphs[to - 1].text
    }
}

/// The line with the glyphs from `i` to `to`, one highlight for each stretch
/// that shares a group.
pub open spec fn with_glyphs(
    line: Line,
    glyphs: Seq<GlyphModel>,
    code: Seq<Mark>,
    i: int,
    to: int,
) -> Line
    decreases to - i,
{
    if 0 <= i < to <= glyphs.len() {
        let group = group_of(code, glyphs[i]);
        let end = group_end(glyphs, code, group, i + 1, to);
        if i < end <= to {
            with_glyphs(
                line.pushed(glyph_text(glyphs, i, end), group),
                glyphs,
                code,
                end,
                to,
            )
        } else {
            line
        }
    } else {
        line
    }
}

proof fn glyph_texts_join(glyphs: Seq<GlyphModel>, from: int, mid: int, to: int)
    requires
        from <= mid <= to,
    ensures
        glyph_text(glyphs, from, to) == glyph_text(glyphs, from, mid) + glyph_text(glyphs, mid, to),
    decreases to - mid,
{
    if mid < to {
        glyph_texts_join(glyphs, from, mid, to - 1);
        assert(glyph_text(glyphs, from, to) =~= glyph_text(glyphs, from, mid) + glyph_text(
            glyphs,
            mid,
            to,
        ));
    } else {
        assert(glyph_text(glyphs, from, to) =~= glyph_text(glyphs, from, mid) + glyph_text(
            glyphs,
            mid,
            to,
        ));
    }
}

proof fn group_ends_behind(
    glyphs: Seq<GlyphModel>,
    code: Seq<Mark>,
    group: Option<HighlightGroup>,
    j: int,
    to: int,
)
    requires
        j <= to,
    ensures
        j <= group_end(glyphs, code, group, j, to) <= to,
    decreases to - j,
{
    if j < to && 0 <= j < glyphs.len() && group_of(code, glyphs[j]) == group {
        group_ends_behind(glyphs, code, group, j + 1, to);
    }
}

/// Whatever their groups, the glyphs put their texts behind a line.
proof fn glyphs_append_text(
    line: Line,
    glyphs: Seq<GlyphModel>,
    code: Seq<Mark>,
    i: int,
    to: int,
)
    requires
        0 <= i <= to <= glyphs.len(),
    ensures
        with_glyphs(line, glyphs, code, i, to).text == line.text + glyph_text(glyphs, i, to),
    decreases to - i,
{
    if i < to {
        let group = group_of(code, glyphs[i]);
        let end = group_end(glyphs, code, group, i + 1, to);
        group_ends_behind(glyphs, code, group, i + 1, to);
        let next = line.pushed(glyph_text(glyphs, i, end), group);
        glyphs_append_text(next, glyphs, code, end, to);
        glyph_texts_join(glyphs, i, end, to);
        assert(next.text =~= line.text + glyph_text(glyphs, i, end));
        assert(line.text + glyph_text(glyphs, i, to) =~= next.text + glyph_text(glyphs, end, to));
    } else {
        assert(line.text =~= line.text + glyph_text(glyphs, i, to));
    }
}

/// A number flush right in `width` columns, and a blank.
pub open spec fn number_text(number: Option<usize>, width: int) -> Seq<char> {
    match number {
        Some(n) => {
            let d = digits(n as nat);
            repeated(' ', at_least(width - d.len(), 0)) + d + " "@
        },
        None => repeated(' ', width + 1),
    }
}

pub open spec fn marker_group(kind: PatchLineKind) -> Option<HighlightGroup> {
    match kind {
        PatchLineKind::Added => Some(HighlightGroup::DiffAdded),
        PatchLineKind::Removed => Some(HighlightGroup::DiffRemoved),
        _ => None,
    }
}

/// The line up to the text of a cell: its number and its marker.
pub open spec fn cell_gutter(line: Line, c: Cell) -> Line {
    let numbered = if c.number_width > 0 {
        line.pushed(number_text(c.number, c.number_width), Some(HighlightGroup::Comment))
    } else {
        line
    };
    match c.marker {
        Some(m) => {
            let marked = numbered.pushed(seq![m], marker_group(c.info.kind));
            if c.pad_to is Some {
                marked.pushed(" "@, None)
            } else {
                marked
            }
        },
        None => numbered,
    }
}

/// The end of the text that a cell shows. A cell that is cut keeps its last
/// column for the mark that says so.
pub open spec fn cell_end(c: Cell) -> int {
    match c.pad_to {
        Some(p) if c.elided => fitting_end(c.glyphs, c.from, c.to, at_least(p - 1, 0)),
        _ => c.to,
    }
}

/// The line with a cell drawn into it, and the cell's geometry.
pub open spec fn with_cell(line: Line, c: Cell) -> (Line, ReviewCell) {
    let gutter = cell_gutter(line, c);
    let end = cell_end(c);
    let shown = with_glyphs(gutter, c.glyphs, c.code, c.from, end);
    let used = run_width(c.glyphs, c.from, end);
    let drawn = match c.pad_to {
        Some(p) => if c.elided {
            shown.pushed("…"@, Some(HighlightGroup::Comment)).padded(at_least(p - used - 1, 0))
        } else {
            shown.padded(at_least(p - used, 0))
        },
        None => shown,
    };
    (
        drawn,
        ReviewCell {
            info: c.info,
            patch_line: c.patch_line,
            bytes_start: byte_count(line.text) as usize,
            bytes_end: byte_count(drawn.text) as usize,
            text_col: gutter.graphemes as usize,
            text_len: (end - c.from) as usize,
            src_glyph: c.from as usize,
        },
    )
}

/// What drawing one side of a row needs.
struct CellSpec<'a> {
    info: PatchLine,
    patch_line: usize,
    glyphs: &'a Vec<Glyph>,
    from: usize,
    to: usize,
    code: &'a Vec<Highlight>,
    /// Source line number, drawn only on the first row of a wrapped line.
    number: Option<usize>,
    number_width: usize,
    marker: Option<char>,
    /// Column width to pad the text to; `None` leaves it ragged.
    pad_to: Option<usize>,
    /// Whether more of this line exists than the row can show.
    elided: bool,
}

impl<'a> CellSpec<'a> {
    spec fn model(self) -> Cell {
        Cell {
            info: self.info,
            patch_line: self.patch_line,
            glyphs: glyph_models(self.glyphs@),
            from: self.from as int,
            to: self.to as int,
            code: marks(self.code@),
            number: self.number,
            number_width: self.number_width as int,
            marker: self.marker,
            pad_to: self.pad_to,
            elided: self.elided,
        }
    }
}

/// The highlight group of a glyph; the most specific span wins.
fn resolve_group(code: &Vec<Highlight>, src: usize) -> (res: Option<HighlightGroup>)
    ensures
        res == match best_group(marks(code@), code.len() as int, src as int) {
            Some((group, len)) => Some(group),
            None => None,
        },
{
    let ghost m = marks(code@);
    let mut best: Option<(HighlightGroup, usize)> = None;
    let mut k: usize = 0;
    while k < code.len()
        invariant
            k <= code.len(),
            m == marks(code@),
            best_group(m, k as int, src as int) == match best {
                Some((g, len)) => Some((g, len as int)),
                None => None,
            },
        decreases code.len() - k,
    {
        let span = &code[k];
        proof {
            assert(m[k as int] == (span.0.start as int, span.0.end as int, span.1));
        }
        if span.0.start <= src && src < span.0.end {
            let length: usize = span.0.end - span.0.start;
            let better = match best {
                Some((_, current)) => length < current,
                None => true,
            };
            if better {
                best = Some((span.1, length));
            }
        }
        k += 1;
    }
    match best {
        Some((group, _)) => Some(group),
        None => None,
    }
}

fn same_group(a: Option<HighlightGroup>, b: Option<HighlightGroup>) -> (res: bool)
    ensures
        res == (a == b),
{
    match (a, b) {
        (Some(a), Some(b)) => a == b,
        (None, None) => true,
        _ => false,
    }
}

fn format_number(number: Option<usize>, width: usize) -> (s: String)
    requires
        width < usize::MAX,
    ensures
        s@ == number_text(number, width as int),
{
    match number {
        Some(n) => {
            let d = decimal(n as u64);
            let len: usize = d.as_str().unicode_len();
            let mut s = if len < width {
                repeat_char(' ', width - len)
            } else {
                repeat_char(' ', 0)
            };
            s.append(d.as_str());
            s.append(" ");
            s
        },
        None => repeat_char(' ', width + 1),
    }
}

proof fn fitting_is(glyphs: Seq<GlyphModel>, i: int, to: int, left: int)
    requires
        0 <= i <= to <= glyphs.len(),
    ensures
        i <= fitting_end(glyphs, i, to, left) <= to,
    decreases to - i,
{
    if i < to && glyphs[i].width <= left {
        fitting_is(glyphs, i + 1, to, left - glyphs[i].width);
    }
}

/// Draws one cell into `row` and returns its geometry.
fn push_cell(row: &mut RowBuilder, spec: CellSpec<'_>) -> (cell: ReviewCell)
    requires
        spec.from <= spec.to <= spec.glyphs.len(),
        spec.number_width < usize::MAX,
        forall|i: int| 0 <= i < spec.glyphs.len() ==> (#[trigger] spec.glyphs@[i]).width <= 2,
    ensures
        (final(row).model(), cell) == with_cell(old(row).model(), spec.model()),
{
    let ghost c = spec.model();
    let ghost g = c.glyphs;
    let bytes_start: usize = byte_len(row.text.as_str());
    if spec.number_width > 0 {
        row.push(
            format_number(spec.number, spec.number_width).as_str(),
            Some(HighlightGroup::Comment),
        );
    }
    if let Some(marker) = spec.marker {
        let group = match spec.info.kind {
            PatchLineKind::Added => Some(HighlightGroup::DiffAdded),
            PatchLineKind::Removed => Some(HighlightGroup::DiffRemoved),
            _ => None,
        };
        let text = repeat_char(marker, 1);
        proof {
            assert(text@ =~= seq![marker]);
        }
        row.push(text.as_str(), group);
        if spec.pad_to.is_some() {
            row.push(" ", None);
        }
    }
    proof {
        assert(row.model() == cell_gutter(old(row).model(), c));
    }
    let text_col: usize = row.graphemes;
    // A cell that is cut keeps its last column for the elision mark.
    let mut end: usize = spec.to;
    if spec.elided {
        if let Some(pad_to) = spec.pad_to {
            let mut left: usize = pad_to.saturating_sub(1);
            let ghost all = left as int;
            end = spec.from;
            while end < spec.to && spec.glyphs[end].width <= left
                invariant
                    spec.from <= end <= spec.to <= spec.glyphs.len(),
                    g == glyph_models(spec.glyphs@),
                    fitting_end(g, end as int, spec.to as int, left as int) == fitting_end(
                        g,
                        spec.from as int,
                        spec.to as int,
                        all,
                    ),
                decreases spec.to - end,
            {
                proof {
                    assert(g[end as int].width == spec.glyphs@[end as int].width);
                }
                left -= spec.glyphs[end].width;
                end += 1;
            }
            proof {
                if end < spec.to {
                    assert(g[end as int].width == spec.glyphs@[end as int].width);
                }
            }
        }
    }
    proof {
        assert(end == cell_end(c));
    }
    let ghost gutter = row.model();
    let ghost goal = with_glyphs(gutter, g, c.code, c.from, end as int);
    let mut index: usize = spec.from;
    let mut used: usize = 0;
    while index < end
        invariant
            spec.from <= index <= end <= spec.glyphs.len(),
            c == spec.model(),
            g == c.glyphs,
            forall|i: int| 0 <= i < spec.glyphs.len() ==> (#[trigger] spec.glyphs@[i]).width <= 2,
            with_glyphs(row.model(), g, c.code, index as int, end as int) == goal,
            used == capped(run_width(g, spec.from as int, index as int) as nat),
            run_width(g, spec.from as int, index as int) >= 0,
        decreases end - index,
    {
        let group = resolve_group(spec.code, spec.glyphs[index].src_byte);
        proof {
            assert(g[index as int].src == spec.glyphs@[index as int].src_byte);
            assert(group == group_of(c.code, g[index as int]));
        }
        let mut text = String::new();
        let mut j: usize = index;
        let ghost start = index;
        let ghost first = group_end(g, c.code, group, start + 1, end as int);
        proof {
            assert(text@ =~= glyph_text(g, start as int, j as int));
        }
        while j < end && (j == index || same_group(
            resolve_group(spec.code, spec.glyphs[j].src_byte),
            group,
        ))
            invariant
                spec.from <= index <= j <= end <= spec.glyphs.len(),
                index == start,
                start < end,
                c == spec.model(),
                g == c.glyphs,
                group == group_of(c.code, g[index as int]),
                forall|i: int|
                    0 <= i < spec.glyphs.len() ==> (#[trigger] spec.glyphs@[i]).width <= 2,
                j == index || group_end(g, c.code, group, j as int, end as int) == first,
                first == group_end(g, c.code, group, start + 1, end as int),
                text@ == glyph_text(g, start as int, j as int),
                used == capped(run_width(g, spec.from as int, j as int) as nat),
                run_width(g, spec.from as int, j as int) >= 0,
            decreases end - j,
        {
            proof {
                assert(g[j as int].src == spec.glyphs@[j as int].src_byte);
                assert(g[j as int].text == spec.glyphs@[j as int].text@);
                assert(g[j as int].width == spec.glyphs@[j as int].width);
                assert(run_width(g, spec.from as int, j + 1) == run_width(
                    g,
                    spec.from as int,
                    j as int,
                ) + g[j as int].width);
                assert(glyph_text(g, start as int, j + 1) == glyph_text(
                    g,
                    start as int,
                    j as int,
                ) + g[j as int].text);
            }
            text.append(spec.glyphs[j].text.as_str());
            used = used.saturating_add(spec.glyphs[j].width);
            j += 1;
        }
        proof {
            if j < end {
                assert(g[j as int].src == spec.glyphs@[j as int].src_byte);
            }
            assert(j == first);
        }
        row.push(text.as_str(), group);
        index = j;
    }
    if let Some(pad_to) = spec.pad_to {
        if spec.elided {
            row.push("…", Some(HighlightGroup::Comment));
            used = used.saturating_add(1);
        }
        row.pad(pad_to.saturating_sub(used));
    }
    proof {
        assert(row.model() == with_cell(old(row).model(), c).0);
    }
    ReviewCell {
        info: spec.info,
        patch_line: spec.patch_line,
        bytes_start,
        bytes_end: byte_len(row.text.as_str()),
        text_col,
        text_len: end - spec.from,
        src_glyph: spec.from,
    }
}

/// A model of a rendered line of the review buffer.
pub ghost struct DocLine {
    pub text: Seq<char>,
    pub spans: Seq<Mark>,
    pub row: ReviewRow,
}

/// The lines with one more.
pub open spec fn doc_with(doc: Seq<DocLine>, line: Line, row: ReviewRow) -> Seq<DocLine> {
    doc.push(DocLine { text: line.text, spans: line.spans, row })
}

/// The lines with a header line more.
pub open spec fn doc_header(
    doc: Seq<DocLine>,
    text: Seq<char>,
    group: Option<HighlightGroup>,
) -> Seq<DocLine> {
    doc_with(doc, Line::new().pushed(text, group), ReviewRow::blank())
}

/// The text of the first `k` lines, each with its line feed.
pub open spec fn doc_text(doc: Seq<DocLine>, k: int) -> Seq<char>
    decreases k,
{
    if k <= 0 || k > doc.len() {
        Seq::empty()
    } else {
        (doc_text(doc, k - 1) + doc[k - 1].text).push('\n')
    }
}

/// Accumulates the whole review buffer.
struct Builder {
    lines: Vec<String>,
    rows: Vec<ReviewRow>,
    highlights: Vec<Vec<Highlight>>,
}

impl Builder {
    spec fn wf(self) -> bool {
        self.lines.len() == self.rows.len() == self.highlights.len()
    }

    spec fn model(self) -> Seq<DocLine> {
        Seq::new(
            self.rows@.len(),
            |i: int|
                DocLine {
                    text: self.lines@[i]@,
                    spans: marks(self.highlights@[i]@),
                    row: self.rows@[i],
                },
        )
    }

    fn new() -> (b: Builder)
        ensures
            b.wf(),
            b.model() == Seq::<DocLine>::empty(),
    {
        let b = Builder { lines: Vec::new(), rows: Vec::new(), highlights: Vec::new() };
        proof {
            assert(b.model() =~= Seq::<DocLine>::empty());
        }
        b
    }

    fn len(&self) -> (n: usize)
        requires
            self.wf(),
        ensures
            n == self.model().len(),
    {
        self.rows.len()
    }

    fn push(&mut self, line: RowBuilder, row: ReviewRow) -> (index: usize)
        requires
            old(self).wf(),
        ensures
            final(self).wf(),
            final(self).model() == doc_with(old(self).model(), line.model(), row),
            index == old(self).model().len(),
    {
        let index: usize = self.rows.len();
        self.lines.push(line.text);
        self.rows.push(row);
        self.highlights.push(line.spans);
        proof {
            assert(self.model() =~= doc_with(old(self).model(), line.model(), row));
        }
        index
    }

    fn header(&mut self, text: &str, group: Option<HighlightGroup>) -> (index: usize)
        requires
            old(self).wf(),
        ensures
            final(self).wf(),
            final(self).model() == doc_header(old(self).model(), text@, group),
            index == old(self).model().len(),
    {
        let mut line = RowBuilder::new();
        line.push(text, group);
        self.push(line, ReviewRow { left: None, right: None })
    }

    fn text(&self) -> (s: String)
        requires
            self.wf(),
        ensures
            s@ == doc_text(self.model(), self.model().len() as int),
    {
        let mut s = String::new();
        let mut k: usize = 0;
        while k < self.lines.len()
            invariant
                k <= self.lines.len(),
                self.wf(),
                s@ == doc_text(self.model(), k as int),
            decreases self.lines.len() - k,
        {
            proof {
                assert(self.model()[k as int].text == self.lines@[k as int]@);
            }
            s.append(self.lines[k].as_str());
            s.push('\n');
            k += 1;
        }
        s
    }
}

/// What the lines of a patch are drawn from.
pub ghost struct Page {
    pub lines: Seq<PatchLine>,
    pub raw: Seq<Seq<char>>,
    pub bodies: Seq<Seq<char>>,
    pub code: PatchHighlights,
    pub tab_width: int,
    pub number_width: int,
    pub text_width: int,
}

struct PageSource<'a> {
    lines: &'a Vec<PatchLine>,
    raw: &'a Vec<String>,
    bodies: &'a Vec<String>,
    code: &'a PatchHighlights,
    tab_width: usize,
    number_width: usize,
    text_width: usize,
}

impl<'a> PageSource<'a> {
    spec fn model(self) -> Page {
        Page {
            lines: self.lines@,
            raw: views(self.raw@),
            bodies: views(self.bodies@),
            code: *self.code,
            tab_width: self.tab_width as int,
            number_width: self.number_width as int,
            text_width: self.text_width as int,
        }
    }

    spec fn wf(self) -> bool {
        &&& self.raw.len() == self.lines.len()
        &&& self.bodies.len() == self.lines.len()
        &&& 3 <= self.number_width <= 7
        &&& self.text_width <= usize::MAX - 10
    }
}

/// The raw text of a patch line, without its line feed alone; empty where the
/// patch has none.
pub open spec fn raw_line(text: Seq<char>, i: int) -> Seq<char> {
    line_content(text, i as nat)
}

/// The text of a patch line as a line of a file has it, without a carriage
/// return at its end; empty where the patch has none.
pub open spec fn shown_line(text: Seq<char>, i: int) -> Seq<char> {
    if i < text_line_count(text) {
        text_line(text, i as nat)
    } else {
        Seq::empty()
    }
}

/// Whether a patch line shows source text behind a marker column.
pub open spec fn is_source(kind: PatchLineKind) -> bool {
    kind is Context || kind is Added || kind is Removed
}

/// A line without its first column, where that is one byte wide.
pub open spec fn unmarked(line: Seq<char>) -> Seq<char> {
    if line.len() > 0 && utf8_width(line[0]) == 1 {
        line.skip(1)
    } else {
        Seq::empty()
    }
}

/// The text of a patch line without its marker column.
pub open spec fn patch_body(patch: ReviewPatch, i: int) -> Seq<char> {
    let line = shown_line(patch.text@, i);
    if is_source(patch.lines@[i].kind) {
        unmarked(line)
    } else {
        line
    }
}

pub open spec fn patch_raw(patch: ReviewPatch) -> Seq<Seq<char>> {
    Seq::new(patch.lines@.len(), |i: int| raw_line(patch.text@, i))
}

pub open spec fn patch_bodies_of(patch: ReviewPatch) -> Seq<Seq<char>> {
    Seq::new(patch.lines@.len(), |i: int| patch_body(patch, i))
}

fn is_source_line(kind: PatchLineKind) -> (res: bool)
    ensures
        res == is_source(kind),
{
    match kind {
        PatchLineKind::Context | PatchLineKind::Added | PatchLineKind::Removed => true,
        _ => false,
    }
}

/// A line without its first column, where that is one byte wide.
pub(crate) fn strip_marker(line: &str) -> (s: String)
    ensures
        s@ == unmarked(line@),
{
    let n: usize = line.unicode_len();
    if n > 0 && char_bytes(line.get_char(0)) == 1 {
        let cs = chars_of(line);
        let s = slice_string(&cs, 1, n);
        proof {
            assert(s@ =~= line@.skip(1));
        }
        s
    } else {
        String::new()
    }
}

fn raw_lines(patch: &ReviewPatch) -> (out: Vec<String>)
    ensures
        views(out@) == patch_raw(*patch),
        out.len() == patch.lines.len(),
{
    let texts = split_breaks(patch.text.as_str());
    let mut out: Vec<String> = Vec::new();
    let mut k: usize = 0;
    while k < patch.lines.len()
        invariant
            k <= patch.lines.len(),
            out.len() == k,
            texts.len() == raw_line_count(patch.text@),
            forall|n: int|
                0 <= n < texts.len() ==> (#[trigger] texts@[n])@ == line_content(
                    patch.text@,
                    n as nat,
                ),
            forall|i: int| 0 <= i < k ==> (#[trigger] out@[i])@ == raw_line(patch.text@, i),
        decreases patch.lines.len() - k,
    {
        if k < texts.len() {
            out.push(texts[k].clone());
        } else {
            let s = String::new();
            proof {
                line_start_is(patch.text@, k as nat);
                assert(s@ =~= raw_line(patch.text@, k as int));
            }
            out.push(s);
        }
        k += 1;
    }
    proof {
        assert(views(out@) =~= patch_raw(*patch));
    }
    out
}

/// The text of each patch line without its marker column.
pub fn patch_bodies(patch: &ReviewPatch) -> (out: Vec<String>)
    ensures
        views(out@) == patch_bodies_of(*patch),
        out.len() == patch.lines.len(),
{
    let texts = text_lines(patch.text.as_str());
    let mut out: Vec<String> = Vec::new();
    let mut k: usize = 0;
    while k < patch.lines.len()
        invariant
            k <= patch.lines.len(),
            out.len() == k,
            texts.len() == text_line_count(patch.text@),
            forall|n: int|
                0 <= n < texts.len() ==> (#[trigger] texts@[n])@ == text_line(
                    patch.text@,
                    n as nat,
                ),
            forall|i: int| 0 <= i < k ==> (#[trigger] out@[i])@ == patch_body(*patch, i),
        decreases patch.lines.len() - k,
    {
        let line = if k < texts.len() {
            texts[k].clone()
        } else {
            String::new()
        };
        proof {
            assert(line@ =~= shown_line(patch.text@, k as int));
        }
        if is_source_line(patch.lines[k].kind) {
            out.push(strip_marker(line.as_str()));
        } else {
            out.push(line);
        }
        k += 1;
    }
    proof {
        assert(views(out@) =~= patch_bodies_of(*patch));
    }
    out
}

/// The marker of a patch line.
pub open spec fn marker_of(kind: PatchLineKind) -> char {
    match kind {
        PatchLineKind::Added => '+',
        PatchLineKind::Removed => '-',
        _ => ' ',
    }
}

fn marker_for(kind: PatchLineKind) -> (c: char)
    ensures
        c == marker_of(kind),
{
    match kind {
        PatchLineKind::Added => '+',
        PatchLineKind::Removed => '-',
        _ => ' ',
    }
}

/// The highlight of a line that shows no source text.
pub open spec fn structural_of(kind: PatchLineKind, text: Seq<char>) -> HighlightGroup {
    match kind {
        PatchLineKind::HunkHeader => HighlightGroup::DiffLocation,
        PatchLineKind::FileHeader => if matches_at(text, 0, "diff "@) || matches_at(
            text,
            0,
            "--- "@,
        ) || matches_at(text, 0, "+++ "@) {
            HighlightGroup::DiffHeader
        } else {
            HighlightGroup::Comment
        },
        _ => HighlightGroup::Comment,
    }
}

fn structural_group(kind: PatchLineKind, text: &str) -> (g: HighlightGroup)
    ensures
        g == structural_of(kind, text@),
{
    match kind {
        PatchLineKind::HunkHeader => HighlightGroup::DiffLocation,
        PatchLineKind::FileHeader => {
            let cs = chars_of(text);
            if starts_with(&cs, 0, "diff ") || starts_with(&cs, 0, "--- ") || starts_with(
                &cs,
                0,
                "+++ ",
            ) {
                HighlightGroup::DiffHeader
            } else {
                HighlightGroup::Comment
            }
        },
        _ => HighlightGroup::Comment,
    }
}

/// A cell without text, so that header rows still resolve to a file.
pub open spec fn header_cell_of(info: PatchLine, i: int, text: Seq<char>) -> ReviewCell {
    ReviewCell {
        info,
        patch_line: i as usize,
        bytes_start: 0,
        bytes_end: byte_count(text) as usize,
        text_col: 0,
        text_len: 0,
        src_glyph: 0,
    }
}

fn header_cell(info: PatchLine, patch_line: usize, text: &str) -> (c: ReviewCell)
    ensures
        c == header_cell_of(info, patch_line as int, text@),
{
    ReviewCell {
        info,
        patch_line,
        bytes_start: 0,
        bytes_end: byte_len(text),
        text_col: 0,
        text_len: 0,
        src_glyph: 0,
    }
}

/// The unified cell of a line of source text.
pub open spec fn unified_cell(
    info: PatchLine,
    i: int,
    body: Seq<char>,
    code: Seq<Mark>,
    tab_width: int,
    marker: char,
) -> Cell {
    let glyphs = glyphs_of(body, tab_width, false);
    Cell {
        info,
        patch_line: i as usize,
        glyphs,
        from: 0,
        to: glyphs.len() as int,
        code,
        number: None,
        number_width: 0,
        marker: Some(marker),
        pad_to: None,
        elided: false,
    }
}

/// The lines with a unified line of source text more.
pub open spec fn doc_unified(doc: Seq<DocLine>, cell: Cell) -> Seq<DocLine> {
    let (line, geometry) = with_cell(Line::new(), cell);
    doc_with(doc, line, ReviewRow::of_cell(geometry))
}

fn push_unified(
    builder: &mut Builder,
    info: PatchLine,
    patch_line: usize,
    body: &str,
    code: &PatchHighlights,
    tab_width: usize,
    marker: char,
)
    requires
        old(builder).wf(),
    ensures
        final(builder).wf(),
        final(builder).model() == doc_unified(
            old(builder).model(),
            unified_cell(
                info,
                patch_line as int,
                body@,
                code.of_line(patch_line as int),
                tab_width as int,
                marker,
            ),
        ),
        final(builder).model().last().text == seq![marker] + body@,
{
    let glyphs = layout_body(body, tab_width, false);
    proof {
        let gutter = Line::new().pushed(seq![marker], marker_group(info.kind));
        assert(gutter.text =~= seq![marker]);
        glyphs_append_text(
            gutter,
            glyph_models(glyphs@),
            code.of_line(patch_line as int),
            0,
            glyphs.len() as int,
        );
    }
    let mut line = RowBuilder::new();
    let cell = push_cell(
        &mut line,
        CellSpec {
            info,
            patch_line,
            glyphs: &glyphs,
            from: 0,
            to: glyphs.len(),
            code: code.line(patch_line),
            number: None,
            number_width: 0,
            marker: Some(marker),
            pad_to: None,
            elided: false,
        },
    );
    let _ = builder.push(line, ReviewRow { left: Some(cell), right: None });
}

/// A model of the body of a review: its lines, the lines of its hunks, and
/// the line at which each file starts, if it has one yet.
pub ghost struct Body {
    pub doc: Seq<DocLine>,
    pub hunks: Seq<usize>,
    pub files: Seq<usize>,
}

/// The start of a file, noted unless the file has one.
pub open spec fn with_file_line(files: Seq<usize>, file: Option<usize>, line: int) -> Seq<usize> {
    match file {
        Some(f) => if f < files.len() && files[f as int] == usize::MAX {
            files.update(f as int, line as usize)
        } else {
            files
        },
        None => files,
    }
}

fn note_file_line(files: &mut Vec<usize>, file: Option<usize>, line: usize)
    ensures
        final(files)@ == with_file_line(old(files)@, file, line as int),
{
    if let Some(f) = file {
        if f < files.len() && files[f] == usize::MAX {
            files[f] = line;
        }
    }
}

/// The unified body after the first `k` patch lines.
pub open spec fn unified_body(start: Body, page: Page, k: int) -> Body
    decreases k,
{
    if k <= 0 || k > page.lines.len() {
        start
    } else {
        let b = unified_body(start, page, k - 1);
        let i = k - 1;
        let info = page.lines[i];
        let text = page.raw[i];
        if is_source(info.kind) {
            Body {
                doc: doc_unified(
                    b.doc,
                    unified_cell(
                        info,
                        i,
                        unmarked(text),
                        page.code.of_line(i),
                        page.tab_width,
                        marker_of(info.kind),
                    ),
                ),
                ..b
            }
        } else {
            Body {
                doc: doc_with(
                    b.doc,
                    Line::new().pushed(text, Some(structural_of(info.kind, text))),
                    ReviewRow::of_cell(header_cell_of(info, i, text)),
                ),
                hunks: if info.kind is HunkHeader {
                    b.hunks.push(b.doc.len() as usize)
                } else {
                    b.hunks
                },
                files: if info.kind is FileHeader {
                    with_file_line(b.files, info.file, b.doc.len() as int)
                } else {
                    b.files
                },
            }
        }
    }
}

/// What the unified layout shows of a patch line.
pub open spec fn unified_text(page: Page, i: int) -> Seq<char> {
    if is_source(page.lines[i].kind) {
        seq![marker_of(page.lines[i].kind)] + unmarked(page.raw[i])
    } else {
        page.raw[i]
    }
}

/// From a line on, there is one line for each of the first `k` patch lines.
pub open spec fn shows_lines(doc: Seq<DocLine>, top: int, page: Page, k: int) -> bool {
    &&& doc.len() == top + k
    &&& forall|i: int|
        #![trigger doc[top + i]]
        0 <= i < k ==> doc[top + i].text == unified_text(page, i) && (doc[top
            + i].row.left matches Some(cell) && cell.patch_line == i && cell.info == page.lines[i])
}

proof fn one_line_more(before: Seq<DocLine>, after: Seq<DocLine>, top: int, page: Page, k: int)
    requires
        0 <= top,
        0 <= k < page.lines.len(),
        shows_lines(before, top, page, k),
        after.len() == before.len() + 1,
        after.drop_last() == before,
        after.last().text == unified_text(page, k),
        after.last().row.left matches Some(cell) && cell.patch_line == k && cell.info
            == page.lines[k],
    ensures
        shows_lines(after, top, page, k + 1),
{
    assert forall|i: int|
        #![trigger after[top + i]]
        0 <= i < k + 1 implies after[top + i].text == unified_text(page, i) && (after[top
        + i].row.left matches Some(cell) && cell.patch_line == i && cell.info == page.lines[i]) by {
        if i < k {
            assert(after.drop_last()[top + i] == after[top + i]);
            assert(before[top + i] == after[top + i]);
        } else {
            assert(after.last() == after[top + i]);
        }
    }
}

/// Every line of source text starts with the marker of its kind.
pub open spec fn well_marked(patch: ReviewPatch) -> bool {
    forall|i: int|
        0 <= i < patch.lines@.len() && is_source((#[trigger] patch.lines@[i]).kind) ==> raw_line(
            patch.text@,
            i,
        ).len() > 0 && raw_line(patch.text@, i)[0] == marker_of(patch.lines@[i].kind)
}

/// From a line on, the review holds the text of the patch, line by line, and
/// knows of each line where it came from.
pub open spec fn shows_patch(doc: Seq<DocLine>, top: int, patch: ReviewPatch) -> bool {
    &&& doc.len() == top + patch.lines@.len()
    &&& forall|i: int|
        #![trigger doc[top + i]]
        0 <= i < patch.lines@.len() ==> doc[top + i].text == raw_line(patch.text@, i) && (doc[top
            + i].row.left matches Some(cell) && cell.patch_line == i && cell.info
            == patch.lines@[i])
}

proof fn patch_is_shown(
    doc: Seq<DocLine>,
    top: int,
    patch: ReviewPatch,
    code: PatchHighlights,
    width: int,
    tab_width: int,
)
    requires
        shows_lines(
            doc,
            top,
            page_of(patch, code, width, tab_width),
            patch.lines@.len() as int,
        ),
        well_marked(patch),
    ensures
        shows_patch(doc, top, patch),
{
    let page = page_of(patch, code, width, tab_width);
    assert forall|i: int|
        #![trigger doc[top + i]]
        0 <= i < patch.lines@.len() implies doc[top + i].text == raw_line(patch.text@, i) && (doc[top
        + i].row.left matches Some(cell) && cell.patch_line == i && cell.info
        == patch.lines@[i]) by {
        assert(doc[top + i].text == unified_text(page, i));
        let kind = patch.lines@[i].kind;
        if is_source(kind) {
            assert(unified_text(page, i) =~= raw_line(patch.text@, i));
        }
    }
}

/// The first `k` lines of a text, each with its line feed.
spec fn lines_text(t: Seq<char>, k: int) -> Seq<char>
    decreases k,
{
    if k <= 0 {
        Seq::empty()
    } else {
        lines_text(t, k - 1) + line_content(t, (k - 1) as nat) + seq!['\n']
    }
}

/// A text that ends with a line feed is its lines.
proof fn lines_make_the_text(t: Seq<char>, k: int)
    requires
        t.len() > 0,
        t.last() == '\n',
        0 <= k <= text_line_count(t),
    ensures
        lines_text(t, k) == t.take(line_start(t, k as nat)),
    decreases k,
{
    if k > 0 {
        lines_make_the_text(t, k - 1);
        line_start_is(t, (k - 1) as nat);
        line_break_is(t, line_start(t, (k - 1) as nat));
        let end = content_end(t, (k - 1) as nat);
        assert(end < t.len());
        assert(t.take(end + 1) =~= t.take(line_start(t, (k - 1) as nat)) + line_content(
            t,
            (k - 1) as nat,
        ) + seq!['\n']);
    } else {
        assert(t.take(0) =~= Seq::empty());
    }
}

proof fn text_is_its_lines(t: Seq<char>)
    requires
        t.len() == 0 || t.last() == '\n',
    ensures
        lines_text(t, text_line_count(t) as int) == t,
{
    if t.len() > 0 {
        let n = text_line_count(t);
        lines_make_the_text(t, n as int);
        line_start_is(t, n);
        line_break_is(t, line_start(t, n));
        assert(line_start(t, n) == t.len()) by {
            if line_start(t, n) < t.len() {
                assert(t[t.len() - 1] != '\n');
            }
        }
        assert(t.take(t.len() as int) =~= t);
    } else {
        assert(lines_text(t, 0) =~= t);
    }
}

/// The text of a review from a line on, where the review shows a patch there.
proof fn shown_text(doc: Seq<DocLine>, top: int, patch: ReviewPatch, k: int)
    requires
        shows_patch(doc, top, patch),
        0 <= top,
        0 <= k <= patch.lines@.len(),
    ensures
        doc_text(doc, top + k) == doc_text(doc, top) + lines_text(patch.text@, k),
    decreases k,
{
    if k > 0 {
        shown_text(doc, top, patch, k - 1);
        assert(doc[top + (k - 1)].text == raw_line(patch.text@, k - 1));
        assert(doc_text(doc, top + k) =~= doc_text(doc, top) + lines_text(patch.text@, k));
    } else {
        assert(doc_text(doc, top) =~= doc_text(doc, top) + lines_text(patch.text@, 0));
    }
}

/// A text ends with another.
pub open spec fn ends_with_text(t: Seq<char>, end: Seq<char>) -> bool {
    t.len() >= end.len() && t.skip(t.len() - end.len()) == end
}

/// A patch has one entry for each of its lines, which all end with a line feed.
pub open spec fn whole_lines(patch: ReviewPatch) -> bool {
    &&& patch.lines@.len() == text_line_count(patch.text@)
    &&& patch.text@.len() == 0 || patch.text@.last() == '\n'
}

/// A review that shows a patch of whole lines ends with the patch's text.
proof fn patch_ends_the_text(doc: Seq<DocLine>, top: int, patch: ReviewPatch)
    requires
        shows_patch(doc, top, patch),
        0 <= top,
        whole_lines(patch),
    ensures
        ends_with_text(doc_text(doc, doc.len() as int), patch.text@),
{
    let n = patch.lines@.len() as int;
    shown_text(doc, top, patch, n);
    text_is_its_lines(patch.text@);
    let all = doc_text(doc, doc.len() as int);
    assert(all == doc_text(doc, top) + patch.text@);
    assert(all.skip(all.len() - patch.text@.len()) =~= patch.text@);
}

fn render_unified(
    page: &PageSource<'_>,
    builder: &mut Builder,
    hunk_lines: &mut Vec<usize>,
    file_lines: &mut Vec<usize>,
)
    requires
        page.wf(),
        old(builder).wf(),
    ensures
        final(builder).wf(),
        (Body {
            doc: final(builder).model(),
            hunks: final(hunk_lines)@,
            files: final(file_lines)@,
        }) == unified_body(
            Body {
                doc: old(builder).model(),
                hunks: old(hunk_lines)@,
                files: old(file_lines)@,
            },
            page.model(),
            page.lines.len() as int,
        ),
        shows_lines(
            final(builder).model(),
            old(builder).model().len() as int,
            page.model(),
            page.lines.len() as int,
        ),
{
    let ghost start = Body { doc: builder.model(), hunks: hunk_lines@, files: file_lines@ };
    let ghost model = page.model();
    let mut i: usize = 0;
    while i < page.lines.len()
        invariant
            i <= page.lines.len(),
            page.wf(),
            builder.wf(),
            model == page.model(),
            start.doc == old(builder).model(),
            shows_lines(builder.model(), start.doc.len() as int, model, i as int),
            (Body { doc: builder.model(), hunks: hunk_lines@, files: file_lines@ })
                == unified_body(start, model, i as int),
        decreases page.lines.len() - i,
    {
        let info = page.lines[i];
        let line_number: usize = builder.len();
        let ghost before = builder.model();
        proof {
            assert(model.raw[i as int] == page.raw@[i as int]@);
            assert(model.bodies[i as int] == page.bodies@[i as int]@);
        }
        if is_source_line(info.kind) {
            push_unified(
                builder,
                info,
                i,
                strip_marker(page.raw[i].as_str()).as_str(),
                page.code,
                page.tab_width,
                marker_for(info.kind),
            );
        } else {
            if let PatchLineKind::HunkHeader = info.kind {
                hunk_lines.push(line_number);
            }
            if let PatchLineKind::FileHeader = info.kind {
                note_file_line(file_lines, info.file, line_number);
            }
            let text = page.raw[i].as_str();
            let mut line = RowBuilder::new();
            line.push(text, Some(structural_group(info.kind, text)));
            let _ = builder.push(
                line,
                ReviewRow { left: Some(header_cell(info, i, text)), right: None },
            );
            proof {
                let group = Some(structural_of(info.kind, text@));
                assert(Line::new().pushed(text@, group).text =~= text@);
            }
        }
        proof {
            assert(builder.model().drop_last() =~= before);
            one_line_more(before, builder.model(), start.doc.len() as int, model, i as int);
        }
        i += 1;
    }
}

/// A count with its noun.
pub open spec fn plural_of(count: nat, noun: Seq<char>) -> Seq<char> {
    if count == 1 {
        "1 "@ + noun
    } else {
        digits(count) + " "@ + noun + "s"@
    }
}

fn plural(count: usize, noun: &str) -> (s: String)
    ensures
        s@ == plural_of(count as nat, noun@),
{
    if count == 1 {
        let mut s = "1 ".to_owned();
        s.append(noun);
        s
    } else {
        let mut s = decimal(count as u64);
        s.append(" ");
        s.append(noun);
        s.append("s");
        s
    }
}

/// How long ago something happened, in words.
pub open spec fn age_text(seconds: nat) -> Seq<char> {
    if seconds < 90 {
        "just now"@
    } else if seconds < 90 * 60 {
        digits(seconds / 60) + " min ago"@
    } else if seconds < 36 * 3600 {
        digits(seconds / 3600) + " h ago"@
    } else {
        digits(seconds / 86400) + " d ago"@
    }
}

/// How long ago something happened, in words.
pub fn humanize(seconds: u64) -> (s: String)
    ensures
        s@ == age_text(seconds as nat),
{
    if seconds < 90 {
        return "just now".to_owned();
    }
    let mut s = String::new();
    if seconds < 90 * 60 {
        s = decimal(seconds / 60);
        s.append(" min ago");
    } else if seconds < 36 * 3600 {
        s = decimal(seconds / 3600);
        s.append(" h ago");
    } else {
        s = decimal(seconds / 86_400);
        s.append(" d ago");
    }
    s
}

/// The name under which the summary lists a file.
pub open spec fn label_of(file: DiffFile) -> Seq<char> {
    match file.old_path {
        Some(old) => old@ + " → "@ + file.path@,
        None => file.path@,
    }
}

fn stat_label(file: &DiffFile) -> (s: String)
    ensures
        s@ == label_of(*file),
{
    match &file.old_path {
        Some(old) => {
            let mut s = old.clone();
            s.append(" → ");
            s.append(file.path.as_str());
            s
        },
        None => file.path.clone(),
    }
}

pub open spec fn letter_of(status: Seq<char>) -> char {
    if status == "added"@ {
        'A'
    } else if status == "deleted"@ {
        'D'
    } else if status == "renamed"@ {
        'R'
    } else if status == "copied"@ {
        'C'
    } else if status == "typechanged"@ {
        'T'
    } else if status == "conflicted"@ {
        'U'
    } else {
        'M'
    }
}

fn status_letter(status: &str) -> (c: char)
    ensures
        c == letter_of(status@),
{
    if same_text(status, "added") {
        'A'
    } else if same_text(status, "deleted") {
        'D'
    } else if same_text(status, "renamed") {
        'R'
    } else if same_text(status, "copied") {
        'C'
    } else if same_text(status, "typechanged") {
        'T'
    } else if same_text(status, "conflicted") {
        'U'
    } else {
        'M'
    }
}

pub open spec fn status_group_of(status: Seq<char>) -> HighlightGroup {
    if status == "added"@ {
        HighlightGroup::DiffAdded
    } else if status == "deleted"@ {
        HighlightGroup::DiffRemoved
    } else {
        HighlightGroup::DiffLocation
    }
}

fn status_group(status: &str) -> (g: HighlightGroup)
    ensures
        g == status_group_of(status@),
{
    if same_text(status, "added") {
        HighlightGroup::DiffAdded
    } else if same_text(status, "deleted") {
        HighlightGroup::DiffRemoved
    } else {
        HighlightGroup::DiffLocation
    }
}

/// How wide the first `k` clusters are; none is narrower than one cell.
pub open spec fn clusters_wide(parts: Seq<Seq<char>>, k: int) -> nat
    decreases k,
{
    if k <= 0 || k > parts.len() {
        0
    } else {
        capped(
            clusters_wide(parts, k - 1) + at_least(
                cluster_width(parts[k - 1]) as int,
                1,
            ) as nat,
        )
    }
}

/// How wide a text is drawn.
pub open spec fn drawn_width(t: Seq<char>) -> nat {
    clusters_wide(graphemes_of(t), graphemes_of(t).len() as int)
}

fn text_width(text: &str) -> (w: usize)
    ensures
        w == drawn_width(text@),
{
    let parts = graphemes(text);
    let ghost v = views(parts@);
    let mut w: usize = 0;
    let mut k: usize = 0;
    while k < parts.len()
        invariant
            k <= parts.len(),
            v == views(parts@),
            w == clusters_wide(v, k as int),
        decreases parts.len() - k,
    {
        proof {
            assert(v[k as int] == parts@[k as int]@);
        }
        let cells: usize = grapheme_display_width(parts[k].as_str());
        w = w.saturating_add(
            if cells < 1 {
                1
            } else {
                cells
            },
        );
        k += 1;
    }
    w
}

/// One line on what the review compares.
pub open spec fn summary_text(patch: ReviewPatch) -> Seq<char> {
    if patch.files@.len() == 0 {
        "No changes: "@ + patch.head@ + " matches "@ + patch.base.name@
    } else {
        patch.head@ + " → "@ + patch.base.name@ + ": "@ + plural_of(
            patch.files@.len(),
            "file"@,
        ) + " · +"@ + digits(additions_of(patch.files@, patch.files@.len() as int)) + " −"@
            + digits(deletions_of(patch.files@, patch.files@.len() as int))
    }
}

/// One line on what the review compares.
pub fn summary_message(patch: &ReviewPatch) -> (s: String)
    ensures
        s@ == summary_text(*patch),
{
    if patch.files.len() == 0 {
        let mut s = "No changes: ".to_owned();
        s.append(patch.head.as_str());
        s.append(" matches ");
        s.append(patch.base.name.as_str());
        s
    } else {
        let mut s = patch.head.clone();
        s.append(" → ");
        s.append(patch.base.name.as_str());
        s.append(": ");
        s.append(plural(patch.files.len(), "file").as_str());
        s.append(" · +");
        s.append(decimal(patch.additions() as u64).as_str());
        s.append(" −");
        s.append(decimal(patch.deletions() as u64).as_str());
        s
    }
}

/// The parts of the line on a branch base.
pub open spec fn base_parts(patch: ReviewPatch) -> Seq<Seq<char>> {
    let merged = match patch.merge_base {
        Some(oid) => seq!["merge-base "@ + oid@],
        None => Seq::empty(),
    };
    let ahead = merged.push(plural_of(patch.ahead as nat, "commit"@) + " ahead"@);
    let behind = if patch.behind > 0 {
        ahead.push(digits(patch.behind as nat) + " behind"@)
    } else {
        ahead
    };
    if patch.base.remote is Some {
        let fetched = if !patch.base.ever_fetched {
            "never fetched"@
        } else {
            match patch.base.fetched_ago {
                Some(age) => "fetched "@ + age_text(age as nat),
                None => "fetched"@,
            }
        };
        behind.push(patch.base.name@ + " "@ + fetched)
    } else {
        behind
    }
}

/// The line on what the review compares against.
pub open spec fn base_text(patch: ReviewPatch) -> Seq<char> {
    let base = patch.base;
    if base.kind is OnDefaultBranch {
        "On "@ + base.name@ + ": uncommitted changes against HEAD"@
    } else if base.kind is NoDefaultBranch {
        "No default branch found: uncommitted changes against HEAD"@
    } else if base.kind is Explicit && !matches_at(
        base.spec@,
        base.spec@.len() - "...WORKTREE"@.len(),
        "...WORKTREE"@,
    ) {
        "Comparison "@ + base.spec@
    } else {
        joined(base_parts(patch), base_parts(patch).len() as int, " · "@)
    }
}

fn ends_with(text: &str, suffix: &str) -> (res: bool)
    ensures
        res == matches_at(text@, text@.len() - suffix@.len(), suffix@),
{
    let cs = chars_of(text);
    let n: usize = suffix.unicode_len();
    if cs.len() < n {
        return false;
    }
    starts_with(&cs, cs.len() - n, suffix)
}

fn describe_base(patch: &ReviewPatch) -> (s: String)
    ensures
        s@ == base_text(*patch),
{
    let base = &patch.base;
    let explicit = match base.kind {
        BaseKind::OnDefaultBranch => {
            let mut s = "On ".to_owned();
            s.append(base.name.as_str());
            s.append(": uncommitted changes against HEAD");
            return s;
        },
        BaseKind::NoDefaultBranch => {
            return "No default branch found: uncommitted changes against HEAD".to_owned();
        },
        BaseKind::Explicit => true,
        BaseKind::DefaultBranch => false,
    };
    if explicit && !ends_with(base.spec.as_str(), "...WORKTREE") {
        let mut s = "Comparison ".to_owned();
        s.append(base.spec.as_str());
        return s;
    }
    let mut parts: Vec<String> = Vec::new();
    if let Some(oid) = &patch.merge_base {
        let mut s = "merge-base ".to_owned();
        s.append(oid.as_str());
        parts.push(s);
    }
    let mut s = plural(patch.ahead, "commit");
    s.append(" ahead");
    parts.push(s);
    if patch.behind > 0 {
        let mut s = decimal(patch.behind as u64);
        s.append(" behind");
        parts.push(s);
    }
    if base.remote.is_some() {
        let fetched = if !base.ever_fetched {
            "never fetched".to_owned()
        } else {
            match base.fetched_ago {
                Some(age) => {
                    let mut s = "fetched ".to_owned();
                    s.append(humanize(age).as_str());
                    s
                },
                None => "fetched".to_owned(),
            }
        };
        let mut s = base.name.clone();
        s.append(" ");
        s.append(fetched.as_str());
        parts.push(s);
    }
    proof {
        assert(views(parts@) =~= base_parts(*patch));
    }
    join(&parts, " · ")
}

/// The widest label of the first `k` files.
pub open spec fn widest_label(files: Seq<DiffFile>, k: int) -> nat
    decreases k,
{
    if k <= 0 || k > files.len() {
        0
    } else {
        at_least(
            drawn_width(label_of(files[k - 1])) as int,
            widest_label(files, k - 1) as int,
        ) as nat
    }
}

/// The summary row of a file.
pub open spec fn stat_line(file: DiffFile, label_width: int) -> Line {
    let label = label_of(file);
    let named = Line::new().pushed("  "@, None).pushed(
        seq![letter_of(file.status@)],
        Some(status_group_of(file.status@)),
    ).pushed("  "@, None).pushed(label, None).padded(
        at_least(label_width - drawn_width(label), 0) + 2,
    );
    if file.binary {
        named.pushed("binary"@, Some(HighlightGroup::Comment))
    } else {
        let added = if file.additions > 0 || file.deletions == 0 {
            named.pushed(
                "+"@ + digits(file.additions as nat),
                Some(HighlightGroup::DiffAdded),
            )
        } else {
            named
        };
        if file.deletions > 0 {
            let spaced = if file.additions > 0 {
                added.pushed(" "@, None)
            } else {
                added
            };
            spaced.pushed(
                "−"@ + digits(file.deletions as nat),
                Some(HighlightGroup::DiffRemoved),
            )
        } else {
            added
        }
    }
}

/// The lines after the summary rows of the first `k` files.
pub open spec fn with_stats(
    doc: Seq<DocLine>,
    files: Seq<DiffFile>,
    label_width: int,
    k: int,
) -> Seq<DocLine>
    decreases k,
{
    if k <= 0 || k > files.len() {
        doc
    } else {
        doc_with(
            with_stats(doc, files, label_width, k - 1),
            stat_line(files[k - 1], label_width),
            ReviewRow::blank(),
        )
    }
}

/// The counts of the whole patch.
pub open spec fn counts_line(patch: ReviewPatch) -> Line {
    let n = patch.files@.len() as int;
    Line::new().pushed(plural_of(patch.files@.len(), "file"@) + " · "@, None).pushed(
        "+"@ + digits(additions_of(patch.files@, n)),
        Some(HighlightGroup::DiffAdded),
    ).pushed(" "@, None).pushed(
        "−"@ + digits(deletions_of(patch.files@, n)),
        Some(HighlightGroup::DiffRemoved),
    )
}

/// The header up to the summary rows.
pub open spec fn header_top(patch: ReviewPatch, unsaved: nat) -> Seq<DocLine> {
    let named = doc_header(
        Seq::empty(),
        patch.head@ + " → "@ + patch.base.name@,
        Some(HighlightGroup::DiffHeader),
    );
    let based = doc_header(named, base_text(patch), Some(HighlightGroup::Comment));
    let counted = if patch.files@.len() == 0 {
        doc_header(based, "No changes"@, Some(HighlightGroup::Comment))
    } else {
        doc_with(based, counts_line(patch), ReviewRow::blank())
    };
    let warned = if unsaved > 0 {
        doc_header(
            counted,
            "! "@ + plural_of(unsaved, "buffer"@)
                + " with unsaved changes; the review reflects what is on disk"@,
            Some(HighlightGroup::DiffRemoved),
        )
    } else {
        counted
    };
    if patch.truncated {
        doc_header(warned, "! Diff truncated at 4 MiB"@, Some(HighlightGroup::DiffRemoved))
    } else {
        warned
    }
}

pub open spec fn label_column(files: Seq<DiffFile>) -> int {
    let w = widest_label(files, files.len() as int) as int;
    if w < 72 {
        w
    } else {
        72
    }
}

/// The header of a review.
pub open spec fn header_doc(patch: ReviewPatch, unsaved: nat) -> Seq<DocLine> {
    let top = header_top(patch, unsaved);
    if patch.files@.len() == 0 {
        top
    } else {
        with_stats(
            doc_header(top, ""@, None),
            patch.files@,
            label_column(patch.files@),
            patch.files@.len() as int,
        )
    }
}

/// The buffer line and the file of each summary row.
pub open spec fn stat_rows_of(patch: ReviewPatch, unsaved: nat) -> Seq<(usize, usize)> {
    Seq::new(
        patch.files@.len(),
        |i: int| ((header_top(patch, unsaved).len() + 1 + i) as usize, i as usize),
    )
}

fn prefixed(prefix: &str, n: usize) -> (s: String)
    ensures
        s@ == prefix@ + digits(n as nat),
{
    let mut s = prefix.to_owned();
    s.append(decimal(n as u64).as_str());
    s
}

fn push_stat(file: &DiffFile, label_width: usize) -> (line: RowBuilder)
    requires
        label_width <= 72,
    ensures
        line.model() == stat_line(*file, label_width as int),
{
    let label = stat_label(file);
    let mut line = RowBuilder::new();
    line.push("  ", None);
    let letter = repeat_char(status_letter(file.status.as_str()), 1);
    proof {
        assert(letter@ =~= seq![letter_of(file.status@)]);
    }
    line.push(letter.as_str(), Some(status_group(file.status.as_str())));
    line.push("  ", None);
    line.push(label.as_str(), None);
    line.pad(label_width.saturating_sub(text_width(label.as_str())) + 2);
    if file.binary {
        line.push("binary", Some(HighlightGroup::Comment));
    } else {
        if file.additions > 0 || file.deletions == 0 {
            line.push(prefixed("+", file.additions).as_str(), Some(HighlightGroup::DiffAdded));
        }
        if file.deletions > 0 {
            if file.additions > 0 {
                line.push(" ", None);
            }
            line.push(
                prefixed("−", file.deletions).as_str(),
                Some(HighlightGroup::DiffRemoved),
            );
        }
    }
    line
}

proof fn stats_len(doc: Seq<DocLine>, files: Seq<DiffFile>, label_width: int, k: int)
    requires
        0 <= k <= files.len(),
    ensures
        with_stats(doc, files, label_width, k).len() == doc.len() + k,
    decreases k,
{
    if k > 0 {
        stats_len(doc, files, label_width, k - 1);
    }
}

fn render_header(
    patch: &ReviewPatch,
    unsaved_buffers: usize,
    builder: &mut Builder,
    stat_rows: &mut Vec<(usize, usize)>,
)
    requires
        old(builder).wf(),
        old(builder).model() == Seq::<DocLine>::empty(),
        old(stat_rows).len() == 0,
    ensures
        final(builder).wf(),
        final(builder).model() == header_doc(*patch, unsaved_buffers as nat),
        final(stat_rows)@ == stat_rows_of(*patch, unsaved_buffers as nat),
{
    let mut title = patch.head.clone();
    title.append(" → ");
    title.append(patch.base.name.as_str());
    let _ = builder.header(title.as_str(), Some(HighlightGroup::DiffHeader));
    let _ = builder.header(describe_base(patch).as_str(), Some(HighlightGroup::Comment));
    if patch.files.len() == 0 {
        let _ = builder.header("No changes", Some(HighlightGroup::Comment));
    } else {
        let mut line = RowBuilder::new();
        let mut count = plural(patch.files.len(), "file");
        count.append(" · ");
        line.push(count.as_str(), None);
        line.push(prefixed("+", patch.additions()).as_str(), Some(HighlightGroup::DiffAdded));
        line.push(" ", None);
        line.push(prefixed("−", patch.deletions()).as_str(), Some(HighlightGroup::DiffRemoved));
        let _ = builder.push(line, ReviewRow { left: None, right: None });
    }
    if unsaved_buffers > 0 {
        let mut warning = "! ".to_owned();
        warning.append(plural(unsaved_buffers, "buffer").as_str());
        warning.append(" with unsaved changes; the review reflects what is on disk");
        let _ = builder.header(warning.as_str(), Some(HighlightGroup::DiffRemoved));
    }
    if patch.truncated {
        let _ = builder.header("! Diff truncated at 4 MiB", Some(HighlightGroup::DiffRemoved));
    }
    let ghost unsaved = unsaved_buffers as nat;
    let ghost top = header_top(*patch, unsaved);
    proof {
        assert(builder.model() == top);
    }
    if patch.files.len() == 0 {
        proof {
            assert(stat_rows@ =~= stat_rows_of(*patch, unsaved));
        }
        return;
    }
    let _ = builder.header("", None);
    let mut widest: usize = 0;
    let mut k: usize = 0;
    while k < patch.files.len()
        invariant
            k <= patch.files.len(),
            widest == widest_label(patch.files@, k as int),
        decreases patch.files.len() - k,
    {
        let w: usize = text_width(stat_label(&patch.files[k]).as_str());
        if widest < w {
            widest = w;
        }
        k += 1;
    }
    let label_width: usize = if widest < 72 {
        widest
    } else {
        72
    };
    let ghost doc = builder.model();
    let mut index: usize = 0;
    while index < patch.files.len()
        invariant
            index <= patch.files.len(),
            builder.wf(),
            label_width == label_column(patch.files@) <= 72,
            doc.len() == top.len() + 1,
            top == header_top(*patch, unsaved),
            builder.model() == with_stats(doc, patch.files@, label_width as int, index as int),
            stat_rows@ == stat_rows_of(*patch, unsaved).take(index as int),
        decreases patch.files.len() - index,
    {
        let line = push_stat(&patch.files[index], label_width);
        proof {
            stats_len(doc, patch.files@, label_width as int, index as int);
        }
        stat_rows.push((builder.len(), index));
        let _ = builder.push(line, ReviewRow { left: None, right: None });
        index += 1;
        proof {
            assert(stat_rows@ =~= stat_rows_of(*patch, unsaved).take(index as int));
        }
    }
    proof {
        assert(stat_rows_of(*patch, unsaved).take(index as int) =~= stat_rows_of(*patch, unsaved));
    }
}

pub open spec fn button_text(option: DiffLayout) -> Seq<char> {
    "[ "@ + option.name() + " ]"@
}

pub open spec fn button_group(option: DiffLayout, layout: DiffLayout) -> HighlightGroup {
    if option == layout {
        HighlightGroup::DiffLocation
    } else {
        HighlightGroup::Comment
    }
}

/// The toolbar up to, and with, its first button.
pub open spec fn toolbar_first(layout: DiffLayout) -> (Line, Line) {
    let start = Line::new().pushed("  "@, None);
    (
        start,
        start.pushed(
            button_text(DiffLayout::Unified),
            Some(button_group(DiffLayout::Unified, layout)),
        ),
    )
}

/// The toolbar up to, and with, its second button.
pub open spec fn toolbar_second(layout: DiffLayout) -> (Line, Line) {
    let start = toolbar_first(layout).1.pushed("  "@, None);
    (
        start,
        start.pushed(
            button_text(DiffLayout::Split),
            Some(button_group(DiffLayout::Split, layout)),
        ),
    )
}

/// The toolbar line.
pub open spec fn toolbar_line(layout: DiffLayout) -> Line {
    toolbar_second(layout).1.pushed("  "@, None).pushed(
        "· click, or press s, to switch view"@,
        Some(HighlightGroup::Comment),
    )
}

/// The lines with the toolbar.
pub open spec fn with_toolbar(doc: Seq<DocLine>, layout: DiffLayout) -> Seq<DocLine> {
    doc_with(doc_header(doc, ""@, None), toolbar_line(layout), ReviewRow::blank())
}

/// Where the toolbar and its buttons are.
pub open spec fn is_toolbar(toolbar: Toolbar, line: int, layout: DiffLayout) -> bool {
    let (a, b) = toolbar_first(layout);
    let (c, d) = toolbar_second(layout);
    &&& toolbar.line == line
    &&& toolbar.buttons.len() == 2
    &&& toolbar.buttons@[0].0.start == a.graphemes
    &&& toolbar.buttons@[0].0.end == b.graphemes
    &&& toolbar.buttons@[0].1 == DiffLayout::Unified
    &&& toolbar.buttons@[1].0.start == c.graphemes
    &&& toolbar.buttons@[1].0.end == d.graphemes
    &&& toolbar.buttons@[1].1 == DiffLayout::Split
}

fn push_button(line: &mut RowBuilder, option: DiffLayout, layout: DiffLayout) -> (range: Range<
    usize,
>)
    ensures
        final(line).model() == old(line).model().pushed(
            button_text(option),
            Some(button_group(option, layout)),
        ),
        range.start == old(line).model().graphemes,
        range.end == final(line).model().graphemes,
{
    let mut label = "[ ".to_owned();
    label.append(option.label());
    label.append(" ]");
    let start: usize = line.graphemes;
    let group = if option == layout {
        HighlightGroup::DiffLocation
    } else {
        HighlightGroup::Comment
    };
    line.push(label.as_str(), Some(group));
    start..line.graphemes
}

fn render_toolbar(layout: DiffLayout, builder: &mut Builder) -> (toolbar: Toolbar)
    requires
        old(builder).wf(),
    ensures
        final(builder).wf(),
        final(builder).model() == with_toolbar(old(builder).model(), layout),
        is_toolbar(toolbar, old(builder).model().len() as int + 1, layout),
{
    let _ = builder.header("", None);
    let mut line = RowBuilder::new();
    line.push("  ", None);
    let first = push_button(&mut line, DiffLayout::Unified, layout);
    line.push("  ", None);
    let second = push_button(&mut line, DiffLayout::Split, layout);
    line.push("  ", None);
    line.push("· click, or press s, to switch view", Some(HighlightGroup::Comment));
    let at: usize = builder.push(line, ReviewRow { left: None, right: None });
    let mut buttons: Vec<(Range<usize>, DiffLayout)> = Vec::new();
    buttons.push((first, DiffLayout::Unified));
    buttons.push((second, DiffLayout::Split));
    Toolbar { line: at, buttons }
}

/// The highest line number among the first `k` patch lines; at least zero.
pub open spec fn highest_number(lines: Seq<PatchLine>, k: int) -> Option<nat>
    decreases k,
{
    if k <= 0 || k > lines.len() {
        None
    } else {
        let before = highest_number(lines, k - 1);
        let here = highest_of(lines[k - 1].old_line, lines[k - 1].new_line);
        match (before, here) {
            (Some(a), Some(b)) => if a < b {
                Some(b)
            } else {
                Some(a)
            },
            (Some(a), None) => Some(a),
            (None, b) => b,
        }
    }
}

pub open spec fn highest_of(a: Option<usize>, b: Option<usize>) -> Option<nat> {
    match (a, b) {
        (Some(a), Some(b)) => Some(at_least(a as int, b as int) as nat),
        (Some(a), None) => Some(a as nat),
        (None, Some(b)) => Some(b as nat),
        (None, None) => None,
    }
}

/// Columns for line numbers: three to seven.
pub open spec fn number_columns(lines: Seq<PatchLine>) -> int {
    let highest = match highest_number(lines, lines.len() as int) {
        Some(n) => n,
        None => 1,
    };
    let len = digits(highest).len();
    if len < 3 {
        3
    } else if len > 7 {
        7
    } else {
        len as int
    }
}

/// Columns for the text of one side, of a row of `width` columns: what the
/// separator and the two gutters leave, halved, and at least eight.
pub open spec fn text_columns(number_width: int, width: int) -> int {
    at_least(at_least(width - 3 - 2 * (number_width + 3), 0) / 2, MIN_SPLIT_TEXT_WIDTH as int)
}

fn split_columns(lines: &Vec<PatchLine>, width: usize) -> (res: (usize, usize))
    ensures
        res.0 == number_columns(lines@),
        res.1 == text_columns(res.0 as int, width as int),
        3 <= res.0 <= 7,
        res.1 <= usize::MAX / 2,
{
    let mut highest: Option<usize> = None;
    let mut k: usize = 0;
    while k < lines.len()
        invariant
            k <= lines.len(),
            highest_number(lines@, k as int) == match highest {
                Some(n) => Some(n as nat),
                None => None,
            },
        decreases lines.len() - k,
    {
        let info = lines[k];
        let here = match (info.old_line, info.new_line) {
            (Some(a), Some(b)) => Some(
                if a < b {
                    b
                } else {
                    a
                },
            ),
            (Some(a), None) => Some(a),
            (None, b) => b,
        };
        highest = match (highest, here) {
            (Some(a), Some(b)) => Some(
                if a < b {
                    b
                } else {
                    a
                },
            ),
            (Some(a), None) => Some(a),
            (None, b) => b,
        };
        k += 1;
    }
    let top: usize = match highest {
        Some(n) => n,
        None => 1,
    };
    let len: usize = decimal(top as u64).as_str().unicode_len();
    let number_width: usize = if len < 3 {
        3
    } else if len > 7 {
        7
    } else {
        len
    };
    let gutter: usize = number_width + 3;
    let halved: usize = width.saturating_sub(3).saturating_sub(2 * gutter) / 2;
    let text_width: usize = if halved < MIN_SPLIT_TEXT_WIDTH {
        MIN_SPLIT_TEXT_WIDTH
    } else {
        halved
    };
    (number_width, text_width)
}

/// The banner above a file in the side-by-side layout.
pub open spec fn banner_of(file: DiffFile, width: int) -> Seq<char> {
    let letter = seq![letter_of(file.status@)];
    let stats = if file.binary {
        letter + "  binary"@
    } else {
        letter + "  +"@ + digits(file.additions as nat) + " −"@ + digits(file.deletions as nat)
    };
    let head = "── "@ + label_of(file) + " "@;
    let used = drawn_width(head) + drawn_width(stats) + 2;
    let free = at_least(width - used, 0);
    let fill = if free < 240 {
        free
    } else {
        240
    };
    head + repeated('─', fill) + " "@ + stats
}

fn file_banner(file: &DiffFile, width: usize) -> (s: String)
    ensures
        s@ == banner_of(*file, width as int),
{
    let mut stats = repeat_char(status_letter(file.status.as_str()), 1);
    proof {
        assert(stats@ =~= seq![letter_of(file.status@)]);
    }
    if file.binary {
        stats.append("  binary");
    } else {
        stats.append("  +");
        stats.append(decimal(file.additions as u64).as_str());
        stats.append(" −");
        stats.append(decimal(file.deletions as u64).as_str());
    }
    let mut s = "── ".to_owned();
    s.append(stat_label(file).as_str());
    s.append(" ");
    let head: usize = text_width(s.as_str());
    let tail: usize = text_width(stats.as_str());
    let free: usize = width.saturating_sub(head).saturating_sub(tail).saturating_sub(2);
    let fill: usize = if free < 240 {
        free
    } else {
        240
    };
    s.append(repeat_char('─', fill).as_str());
    s.append(" ");
    s.append(stats.as_str());
    s
}

/// One side of row `row` of a pair: the line of the patch, its part that this
/// row shows, and its number on the first row.
pub open spec fn side_cell(page: Page, i: int, row: int, shown: int, old_side: bool) -> Cell {
    let info = page.lines[i];
    let glyphs = glyphs_of(page.bodies[i], page.tab_width, true);
    let runs = runs_of(glyphs, page.text_width);
    let (from, to) = if row < runs.len() {
        runs[row]
    } else {
        (glyphs.len() as int, glyphs.len() as int)
    };
    Cell {
        info,
        patch_line: i as usize,
        glyphs,
        from,
        to,
        code: page.code.of_line(i),
        number: if row == 0 {
            if old_side {
                info.old_line
            } else {
                info.new_line
            }
        } else {
            None
        },
        number_width: page.number_width,
        marker: Some(
            if row == 0 {
                marker_of(info.kind)
            } else {
                ' '
            },
        ),
        pad_to: Some(page.text_width as usize),
        elided: row + 1 == shown && runs.len() > shown,
    }
}

/// How many rows a side needs.
pub open spec fn side_rows(page: Page, side: Option<usize>) -> int {
    match side {
        Some(i) => runs_of(
            glyphs_of(page.bodies[i as int], page.tab_width, true),
            page.text_width,
        ).len() as int,
        None => 0,
    }
}

/// How many rows a pair is shown in: what its longer side needs, but at least
/// one and at most a dozen.
pub open spec fn pair_rows(page: Page, old: Option<usize>, new: Option<usize>) -> int {
    let needed = at_least(side_rows(page, old), side_rows(page, new));
    if needed < 1 {
        1
    } else if needed > MAX_WRAP_ROWS {
        MAX_WRAP_ROWS as int
    } else {
        needed
    }
}

/// Row `row` of a pair: the old side, the separator, the new side.
pub open spec fn pair_row(
    page: Page,
    old: Option<usize>,
    new: Option<usize>,
    row: int,
    shown: int,
) -> (Line, ReviewRow) {
    let (left_line, left) = match old {
        Some(i) => {
            let (line, cell) = with_cell(
                Line::new(),
                side_cell(page, i as int, row, shown, true),
            );
            (line, Some(cell))
        },
        None => (Line::new().padded(page.number_width + 3 + page.text_width), None),
    };
    let middle = left_line.pushed(" "@, None).pushed(
        seq!['│'],
        Some(HighlightGroup::Punctuation),
    ).pushed(" "@, None);
    match new {
        Some(i) => {
            let (line, cell) = with_cell(middle, side_cell(page, i as int, row, shown, false));
            (line, ReviewRow { left, right: Some(cell) })
        },
        None => (middle, ReviewRow { left, right: None }),
    }
}

/// The lines with the first `k` rows of a pair.
pub open spec fn with_pair_rows(
    doc: Seq<DocLine>,
    page: Page,
    old: Option<usize>,
    new: Option<usize>,
    k: int,
) -> Seq<DocLine>
    decreases k,
{
    if k <= 0 {
        doc
    } else {
        let (line, row) = pair_row(page, old, new, k - 1, pair_rows(page, old, new));
        doc_with(with_pair_rows(doc, page, old, new, k - 1), line, row)
    }
}

/// The lines with a pair.
pub open spec fn with_pair(
    doc: Seq<DocLine>,
    page: Page,
    old: Option<usize>,
    new: Option<usize>,
) -> Seq<DocLine> {
    with_pair_rows(doc, page, old, new, pair_rows(page, old, new))
}

/// The side of a pair that is `k`th in a list; none behind its end.
pub open spec fn nth(list: Seq<usize>, k: int) -> Option<usize> {
    if k < list.len() {
        Some(list[k])
    } else {
        None
    }
}

/// The lines with the first `k` pairs of removed and added lines.
pub open spec fn with_pairs(
    doc: Seq<DocLine>,
    page: Page,
    old: Seq<usize>,
    new: Seq<usize>,
    k: int,
) -> Seq<DocLine>
    decreases k,
{
    if k <= 0 {
        doc
    } else {
        with_pair(
            with_pairs(doc, page, old, new, k - 1),
            page,
            nth(old, k - 1),
            nth(new, k - 1),
        )
    }
}

/// The lines with all pairs of removed and added lines.
pub open spec fn flushed(
    doc: Seq<DocLine>,
    page: Page,
    old: Seq<usize>,
    new: Seq<usize>,
) -> Seq<DocLine> {
    with_pairs(doc, page, old, new, at_least(old.len() as int, new.len() as int))
}

struct Side {
    glyphs: Vec<Glyph>,
    runs: Vec<Range<usize>>,
}

spec fn side_is(side: Side, page: Page, i: int) -> bool {
    let glyphs = glyphs_of(page.bodies[i], page.tab_width, true);
    &&& glyph_models(side.glyphs@) == glyphs
    &&& run_pairs(side.runs@) == runs_of(glyphs, page.text_width)
    &&& forall|k: int| 0 <= k < side.glyphs.len() ==> (#[trigger] side.glyphs@[k]).width <= 2
    &&& forall|k: int|
        0 <= k < side.runs.len() ==> (#[trigger] side.runs@[k]).start <= side.runs@[k].end
            && side.runs@[k].end <= side.glyphs.len()
}

fn lay_out_side(page: &PageSource<'_>, index: usize) -> (side: Side)
    requires
        page.wf(),
        index < page.lines.len(),
    ensures
        side_is(side, page.model(), index as int),
        side.runs.len() > 0,
{
    proof {
        assert(page.model().bodies[index as int] == page.bodies@[index as int]@);
    }
    let glyphs = layout_body(page.bodies[index].as_str(), page.tab_width, true);
    let runs = chunk_glyphs(&glyphs, page.text_width);
    Side { glyphs, runs }
}

fn push_side(
    line: &mut RowBuilder,
    page: &PageSource<'_>,
    index: usize,
    side: &Side,
    row: usize,
    shown: usize,
    old_side: bool,
) -> (cell: ReviewCell)
    requires
        page.wf(),
        index < page.lines.len(),
        side_is(*side, page.model(), index as int),
        row < shown <= MAX_WRAP_ROWS,
    ensures
        (final(line).model(), cell) == with_cell(
            old(line).model(),
            side_cell(page.model(), index as int, row as int, shown as int, old_side),
        ),
{
    let info = page.lines[index];
    let n: usize = side.glyphs.len();
    let (from, to): (usize, usize) = if row < side.runs.len() {
        (side.runs[row].start, side.runs[row].end)
    } else {
        (n, n)
    };
    let number = if row == 0 {
        if old_side {
            info.old_line
        } else {
            info.new_line
        }
    } else {
        None
    };
    let marker = if row == 0 {
        marker_for(info.kind)
    } else {
        ' '
    };
    let spec = CellSpec {
        info,
        patch_line: index,
        glyphs: &side.glyphs,
        from,
        to,
        code: page.code.line(index),
        number,
        number_width: page.number_width,
        marker: Some(marker),
        pad_to: Some(page.text_width),
        elided: row + 1 == shown && side.runs.len() > shown,
    };
    proof {
        let want = side_cell(page.model(), index as int, row as int, shown as int, old_side);
        let runs = run_pairs(side.runs@);
        if row < side.runs.len() {
            assert(runs[row as int] == (from as int, to as int));
        }
        assert(spec.model() == want);
    }
    push_cell(line, spec)
}

fn emit_pair(page: &PageSource<'_>, builder: &mut Builder, removed: Option<usize>, added: Option<usize>)
    requires
        page.wf(),
        old(builder).wf(),
        removed matches Some(i) ==> i < page.lines.len(),
        added matches Some(i) ==> i < page.lines.len(),
    ensures
        final(builder).wf(),
        final(builder).model() == with_pair(old(builder).model(), page.model(), removed, added),
{
    let ghost model = page.model();
    let left_side = match removed {
        Some(i) => Some(lay_out_side(page, i)),
        None => None,
    };
    let right_side = match added {
        Some(i) => Some(lay_out_side(page, i)),
        None => None,
    };
    let left_rows: usize = match &left_side {
        Some(side) => side.runs.len(),
        None => 0,
    };
    let right_rows: usize = match &right_side {
        Some(side) => side.runs.len(),
        None => 0,
    };
    proof {
        if left_side is Some {
            assert(run_pairs((left_side->0).runs@).len() == (left_side->0).runs.len());
        }
        if right_side is Some {
            assert(run_pairs((right_side->0).runs@).len() == (right_side->0).runs.len());
        }
    }
    let needed: usize = if left_rows < right_rows {
        right_rows
    } else {
        left_rows
    };
    let shown: usize = if needed < 1 {
        1
    } else if needed > MAX_WRAP_ROWS {
        MAX_WRAP_ROWS
    } else {
        needed
    };
    let ghost doc = builder.model();
    proof {
        assert(shown == pair_rows(model, removed, added));
    }
    let mut row: usize = 0;
    while row < shown
        invariant
            row <= shown <= MAX_WRAP_ROWS,
            page.wf(),
            builder.wf(),
            model == page.model(),
            shown == pair_rows(model, removed, added),
            removed matches Some(i) ==> i < page.lines.len(),
            added matches Some(i) ==> i < page.lines.len(),
            match (removed, left_side) {
                (Some(i), Some(side)) => side_is(side, model, i as int),
                (None, None) => true,
                _ => false,
            },
            match (added, right_side) {
                (Some(i), Some(side)) => side_is(side, model, i as int),
                (None, None) => true,
                _ => false,
            },
            builder.model() == with_pair_rows(doc, model, removed, added, row as int),
        decreases shown - row,
    {
        let mut line = RowBuilder::new();
        let left = match (removed, &left_side) {
            (Some(i), Some(side)) => Some(push_side(&mut line, page, i, side, row, shown, true)),
            _ => {
                line.pad(page.number_width + 3 + page.text_width);
                None
            },
        };
        line.push(" ", None);
        let bar = repeat_char('│', 1);
        proof {
            assert(bar@ =~= seq!['│']);
        }
        line.push(bar.as_str(), Some(HighlightGroup::Punctuation));
        line.push(" ", None);
        let right = match (added, &right_side) {
            (Some(i), Some(side)) => Some(push_side(&mut line, page, i, side, row, shown, false)),
            _ => None,
        };
        let _ = builder.push(line, ReviewRow { left, right });
        row += 1;
    }
}

/// Emits the buffered removals and additions of a change block, pairing them
/// row by row so a rewritten line lines up with its replacement.
fn flush_pair(
    page: &PageSource<'_>,
    builder: &mut Builder,
    pending_old: &mut Vec<usize>,
    pending_new: &mut Vec<usize>,
)
    requires
        page.wf(),
        old(builder).wf(),
        forall|k: int| 0 <= k < old(pending_old).len() ==> old(pending_old)@[k] < page.lines.len(),
        forall|k: int| 0 <= k < old(pending_new).len() ==> old(pending_new)@[k] < page.lines.len(),
    ensures
        final(builder).wf(),
        final(builder).model() == flushed(
            old(builder).model(),
            page.model(),
            old(pending_old)@,
            old(pending_new)@,
        ),
        final(pending_old)@ == Seq::<usize>::empty(),
        final(pending_new)@ == Seq::<usize>::empty(),
{
    let rows: usize = if pending_old.len() < pending_new.len() {
        pending_new.len()
    } else {
        pending_old.len()
    };
    let ghost doc = builder.model();
    let mut row: usize = 0;
    while row < rows
        invariant
            row <= rows == at_least(pending_old.len() as int, pending_new.len() as int),
            page.wf(),
            builder.wf(),
            pending_old@ == old(pending_old)@,
            pending_new@ == old(pending_new)@,
            forall|k: int| 0 <= k < pending_old.len() ==> pending_old@[k] < page.lines.len(),
            forall|k: int| 0 <= k < pending_new.len() ==> pending_new@[k] < page.lines.len(),
            builder.model() == with_pairs(
                doc,
                page.model(),
                pending_old@,
                pending_new@,
                row as int,
            ),
        decreases rows - row,
    {
        let removed = if row < pending_old.len() {
            Some(pending_old[row])
        } else {
            None
        };
        let added = if row < pending_new.len() {
            Some(pending_new[row])
        } else {
            None
        };
        emit_pair(page, builder, removed, added);
        row += 1;
    }
    pending_old.clear();
    pending_new.clear();
}

/// The side-by-side body under construction: its lines, the changes that wait
/// for their counterparts, and the file of the last line.
pub ghost struct Split {
    pub body: Body,
    pub old: Seq<usize>,
    pub new: Seq<usize>,
    pub file: Option<usize>,
}

impl Split {
    pub open spec fn flushed(self, page: Page) -> Split {
        Split {
            body: Body { doc: flushed(self.body.doc, page, self.old, self.new), ..self.body },
            old: Seq::empty(),
            new: Seq::empty(),
            ..self
        }
    }

    /// A line that shows the patch's own text.
    pub open spec fn quoted(self, page: Page, i: int, group: HighlightGroup, hunk: bool) -> Split {
        let b = self.flushed(page);
        let text = page.bodies[i];
        Split {
            body: Body {
                doc: doc_with(
                    b.body.doc,
                    Line::new().pushed(text, Some(group)),
                    ReviewRow::of_cell(header_cell_of(page.lines[i], i, text)),
                ),
                hunks: if hunk {
                    b.body.hunks.push(b.body.doc.len() as usize)
                } else {
                    b.body.hunks
                },
                ..b.body
            },
            ..b
        }
    }

    /// Where a line belongs to another file than the one before, what waits
    /// is shown, and the file gets a banner.
    pub open spec fn entered(self, page: Page, files: Seq<DiffFile>, i: int) -> Split {
        let info = page.lines[i];
        if info.file == self.file {
            self
        } else {
            let b = Split { file: info.file, ..self.flushed(page) };
            match info.file {
                Some(f) => if f < files.len() {
                    let width = 2 * (page.number_width + 3 + page.text_width) + 3;
                    Split {
                        body: Body {
                            doc: doc_with(
                                b.body.doc,
                                Line::new().pushed(
                                    banner_of(files[f as int], width),
                                    Some(HighlightGroup::DiffHeader),
                                ),
                                ReviewRow::of_cell(header_cell_of(info, i, ""@)),
                            ),
                            files: with_file_line(
                                b.body.files,
                                Some(f),
                                b.body.doc.len() as int,
                            ),
                            ..b.body
                        },
                        ..b
                    }
                } else {
                    b
                },
                None => b,
            }
        }
    }

    /// The body with patch line `i`.
    pub open spec fn with_line(self, page: Page, files: Seq<DiffFile>, i: int) -> Split {
        let b = self.entered(page, files, i);
        match page.lines[i].kind {
            PatchLineKind::FileHeader => b,
            PatchLineKind::HunkHeader => b.quoted(page, i, HighlightGroup::DiffLocation, true),
            PatchLineKind::Meta => b.quoted(page, i, HighlightGroup::Comment, false),
            PatchLineKind::Context => {
                let c = b.flushed(page);
                Split {
                    body: Body {
                        doc: with_pair(c.body.doc, page, Some(i as usize), Some(i as usize)),
                        ..c.body
                    },
                    ..c
                }
            },
            PatchLineKind::Removed => Split { old: b.old.push(i as usize), ..b },
            PatchLineKind::Added => Split { new: b.new.push(i as usize), ..b },
        }
    }
}

/// The side-by-side body after the first `k` patch lines.
pub open spec fn split_body(start: Body, page: Page, files: Seq<DiffFile>, k: int) -> Split
    decreases k,
{
    if k <= 0 || k > page.lines.len() {
        Split { body: start, old: Seq::empty(), new: Seq::empty(), file: None }
    } else {
        split_body(start, page, files, k - 1).with_line(page, files, k - 1)
    }
}

fn same_index(a: Option<usize>, b: Option<usize>) -> (res: bool)
    ensures
        res == (a == b),
{
    match (a, b) {
        (Some(a), Some(b)) => a == b,
        (None, None) => true,
        _ => false,
    }
}

fn render_split(
    page: &PageSource<'_>,
    files: &Vec<DiffFile>,
    builder: &mut Builder,
    hunk_lines: &mut Vec<usize>,
    file_lines: &mut Vec<usize>,
)
    requires
        page.wf(),
        page.text_width <= usize::MAX / 2 - 12,
        old(builder).wf(),
    ensures
        final(builder).wf(),
        (Body {
            doc: final(builder).model(),
            hunks: final(hunk_lines)@,
            files: final(file_lines)@,
        }) == split_body(
            Body {
                doc: old(builder).model(),
                hunks: old(hunk_lines)@,
                files: old(file_lines)@,
            },
            page.model(),
            files@,
            page.lines.len() as int,
        ).flushed(page.model()).body,
{
    let ghost start = Body { doc: builder.model(), hunks: hunk_lines@, files: file_lines@ };
    let ghost model = page.model();
    let mut pending_old: Vec<usize> = Vec::new();
    let mut pending_new: Vec<usize> = Vec::new();
    let mut current_file: Option<usize> = None;
    let row_width: usize = 2 * (page.number_width + 3 + page.text_width) + 3;
    let mut i: usize = 0;
    while i < page.lines.len()
        invariant
            i <= page.lines.len(),
            page.wf(),
            builder.wf(),
            model == page.model(),
            row_width == 2 * (model.number_width + 3 + model.text_width) + 3,
            forall|k: int| 0 <= k < pending_old.len() ==> pending_old@[k] < page.lines.len(),
            forall|k: int| 0 <= k < pending_new.len() ==> pending_new@[k] < page.lines.len(),
            (Split {
                body: Body { doc: builder.model(), hunks: hunk_lines@, files: file_lines@ },
                old: pending_old@,
                new: pending_new@,
                file: current_file,
            }) == split_body(start, model, files@, i as int),
        decreases page.lines.len() - i,
    {
        let info = page.lines[i];
        let ghost before = split_body(start, model, files@, i as int);
        proof {
            assert(model.bodies[i as int] == page.bodies@[i as int]@);
        }
        // A new file starts a fresh banner and flushes anything pending.
        if !same_index(info.file, current_file) {
            flush_pair(page, builder, &mut pending_old, &mut pending_new);
            current_file = info.file;
            if let Some(file) = info.file {
                if file < files.len() {
                    let line: usize = builder.len();
                    let mut row = RowBuilder::new();
                    row.push(
                        file_banner(&files[file], row_width).as_str(),
                        Some(HighlightGroup::DiffHeader),
                    );
                    let _ = builder.push(
                        row,
                        ReviewRow { left: Some(header_cell(info, i, "")), right: None },
                    );
                    note_file_line(file_lines, info.file, line);
                }
            }
        }
        proof {
            assert((Split {
                body: Body { doc: builder.model(), hunks: hunk_lines@, files: file_lines@ },
                old: pending_old@,
                new: pending_new@,
                file: current_file,
            }) == before.entered(model, files@, i as int));
        }
        match info.kind {
            // The raw header block is replaced by the banner.
            PatchLineKind::FileHeader => {},
            PatchLineKind::HunkHeader => {
                flush_pair(page, builder, &mut pending_old, &mut pending_new);
                hunk_lines.push(builder.len());
                let text = page.bodies[i].as_str();
                let mut row = RowBuilder::new();
                row.push(text, Some(HighlightGroup::DiffLocation));
                let _ = builder.push(
                    row,
                    ReviewRow { left: Some(header_cell(info, i, text)), right: None },
                );
            },
            PatchLineKind::Meta => {
                flush_pair(page, builder, &mut pending_old, &mut pending_new);
                let text = page.bodies[i].as_str();
                let mut row = RowBuilder::new();
                row.push(text, Some(HighlightGroup::Comment));
                let _ = builder.push(
                    row,
                    ReviewRow { left: Some(header_cell(info, i, text)), right: None },
                );
            },
            PatchLineKind::Context => {
                flush_pair(page, builder, &mut pending_old, &mut pending_new);
                emit_pair(page, builder, Some(i), Some(i));
            },
            PatchLineKind::Removed => pending_old.push(i),
            PatchLineKind::Added => pending_new.push(i),
        }
        i += 1;
    }
    flush_pair(page, builder, &mut pending_old, &mut pending_new);
}

/// `rendered` shows the lines `doc`.
pub open spec fn shows(rendered: Rendered, doc: Seq<DocLine>) -> bool {
    &&& rendered.text@ == doc_text(doc, doc.len() as int)
    &&& rendered.rows@ == doc.map_values(|l: DocLine| l.row)
    &&& rendered.highlights@.map_values(|h: Vec<Highlight>| marks(h@)) == doc.map_values(
        |l: DocLine| l.spans,
    )
}

/// What a page of a patch is drawn from.
pub open spec fn page_of(
    patch: ReviewPatch,
    code: PatchHighlights,
    width: int,
    tab_width: int,
) -> Page {
    let number_width = number_columns(patch.lines@);
    Page {
        lines: patch.lines@,
        raw: patch_raw(patch),
        bodies: patch_bodies_of(patch),
        code,
        tab_width,
        number_width,
        text_width: text_columns(number_width, width),
    }
}

/// The lines above the patch.
pub open spec fn review_top(patch: ReviewPatch, layout: DiffLayout, unsaved: nat) -> Seq<DocLine> {
    doc_header(
        doc_header(
            with_toolbar(header_doc(patch, unsaved), layout),
            KEY_HINT@,
            Some(HighlightGroup::Comment),
        ),
        ""@,
        None,
    )
}

/// The whole review: its lines, hunks and file starts, before files without a
/// line of their own are given the last line.
pub open spec fn review_body(
    patch: ReviewPatch,
    code: PatchHighlights,
    layout: DiffLayout,
    width: int,
    unsaved: nat,
    tab_width: int,
) -> Body {
    let page = page_of(patch, code, width, tab_width);
    let start = Body {
        doc: review_top(patch, layout, unsaved),
        hunks: Seq::empty(),
        files: Seq::new(patch.files@.len(), |i: int| usize::MAX),
    };
    let n = patch.lines@.len() as int;
    match layout {
        DiffLayout::Unified => unified_body(start, page, n),
        DiffLayout::Split => split_body(start, page, patch.files@, n).flushed(page).body,
    }
}

/// File starts, with a line for the files that have none of their own.
pub open spec fn with_fallback(files: Seq<usize>, fallback: int) -> Seq<usize> {
    files.map_values(
        |line: usize|
            if line == usize::MAX {
                fallback as usize
            } else {
                line
            },
    )
}

fn fill_fallback(files: &Vec<usize>, fallback: usize) -> (out: Vec<usize>)
    ensures
        out@ == with_fallback(files@, fallback as int),
{
    let mut out: Vec<usize> = Vec::new();
    let mut k: usize = 0;
    while k < files.len()
        invariant
            k <= files.len(),
            out.len() == k,
            forall|i: int| 0 <= i < k ==> out@[i] == with_fallback(files@, fallback as int)[i],
        decreases files.len() - k,
    {
        let line: usize = files[k];
        out.push(
            if line == usize::MAX {
                fallback
            } else {
                line
            },
        );
        k += 1;
    }
    proof {
        assert(out@ =~= with_fallback(files@, fallback as int));
    }
    out
}

fn unset_lines(n: usize) -> (out: Vec<usize>)
    ensures
        out@ == Seq::new(n as nat, |i: int| usize::MAX),
{
    let mut out: Vec<usize> = Vec::new();
    let mut k: usize = 0;
    while k < n
        invariant
            k <= n,
            out.len() == k,
            forall|i: int| 0 <= i < k ==> out@[i] == usize::MAX,
        decreases n - k,
    {
        out.push(usize::MAX);
        k += 1;
    }
    proof {
        assert(out@ =~= Seq::new(n as nat, |i: int| usize::MAX));
    }
    out
}

/// Renders the review buffer. `code` holds the language highlights of the
/// patch lines.
pub fn render(
    patch: &ReviewPatch,
    code: PatchHighlights,
    layout: DiffLayout,
    width: usize,
    unsaved_buffers: usize,
    tab_width: usize,
) -> (rendered: Rendered)
    requires
        width <= usize::MAX - 64,
    ensures
        ({
            let body = review_body(
                *patch,
                code,
                layout,
                width as int,
                unsaved_buffers as nat,
                tab_width as int,
            );
            &&& rendered.title@ == DIFF_REVIEW_TITLE_PREFIX@ + patch.head@ + " → "@
                + patch.base.name@
            &&& shows(rendered, body.doc)
            &&& rendered.stat_rows@ == stat_rows_of(*patch, unsaved_buffers as nat)
            &&& rendered.hunk_lines@ == body.hunks
            &&& rendered.file_lines@ == with_fallback(body.files, at_least(body.doc.len() - 1, 0))
            &&& is_toolbar(
                rendered.toolbar,
                header_doc(*patch, unsaved_buffers as nat).len() as int + 1,
                layout,
            )
            &&& rendered.code_highlights@.map_values(|h: Vec<Highlight>| marks(h@)) == code.model()
            &&& rendered.custom_targets.len() == 0
            &&& layout is Unified && well_marked(*patch) ==> shows_patch(
                body.doc,
                review_top(*patch, layout, unsaved_buffers as nat).len() as int,
                *patch,
            )
            &&& layout is Unified && well_marked(*patch) && whole_lines(*patch) ==> ends_with_text(
                rendered.text@,
                patch.text@,
            )
            &&& rendered.rows.len() == rendered.highlights.len()
        }),
{
    let raw = raw_lines(patch);
    let bodies = patch_bodies(patch);
    let mut builder = Builder::new();
    let mut stat_rows: Vec<(usize, usize)> = Vec::new();
    render_header(patch, unsaved_buffers, &mut builder, &mut stat_rows);
    let toolbar = render_toolbar(layout, &mut builder);
    let _ = builder.header(KEY_HINT, Some(HighlightGroup::Comment));
    let _ = builder.header("", None);
    let mut hunk_lines: Vec<usize> = Vec::new();
    let mut file_lines: Vec<usize> = unset_lines(patch.files.len());
    let (number_width, text_width) = split_columns(&patch.lines, width);
    let page = PageSource {
        lines: &patch.lines,
        raw: &raw,
        bodies: &bodies,
        code: &code,
        tab_width,
        number_width,
        text_width,
    };
    proof {
        assert(page.model() == page_of(*patch, code, width as int, tab_width as int));
    }
    match layout {
        DiffLayout::Unified => render_unified(
            &page,
            &mut builder,
            &mut hunk_lines,
            &mut file_lines,
        ),
        DiffLayout::Split => render_split(
            &page,
            &patch.files,
            &mut builder,
            &mut hunk_lines,
            &mut file_lines,
        ),
    }
    proof {
        if layout is Unified && well_marked(*patch) {
            patch_is_shown(
                builder.model(),
                review_top(*patch, layout, unsaved_buffers as nat).len() as int,
                *patch,
                code,
                width as int,
                tab_width as int,
            );
            if whole_lines(*patch) {
                patch_ends_the_text(
                    builder.model(),
                    review_top(*patch, layout, unsaved_buffers as nat).len() as int,
                    *patch,
                );
            }
        }
    }
    // Every file must be addressable, even if it has no header line of its own.
    let fallback: usize = builder.len().saturating_sub(1);
    let file_lines = fill_fallback(&file_lines, fallback);
    let mut title = DIFF_REVIEW_TITLE_PREFIX.to_owned();
    title.append(patch.head.as_str());
    title.append(" → ");
    title.append(patch.base.name.as_str());
    let text = builder.text();
    let ghost doc = builder.model();
    let rendered = Rendered {
        title,
        text,
        rows: builder.rows,
        stat_rows,
        hunk_lines,
        file_lines,
        toolbar,
        highlights: builder.highlights,
        code_highlights: code.into_lines(),
        custom_targets: Vec::new(),
    };
    proof {
        assert(rendered.rows@ =~= doc.map_values(|l: DocLine| l.row));
        assert(rendered.highlights@.map_values(|h: Vec<Highlight>| marks(h@)) =~= doc.map_values(
            |l: DocLine| l.spans,
        ));
    }
    rendered
}

/// The heading of a section.
pub open spec fn heading_of(section: ReviewSection) -> Seq<char> {
    let label = match section.label {
        Some(l) => l@,
        None => "Change"@,
    };
    let old = match section.old_path {
        Some(p) => p@,
        None => "∅"@,
    };
    let new = match section.new_path {
        Some(p) => p@,
        None => "∅"@,
    };
    "── "@ + label + " · "@ + old + " → "@ + new
}

fn append_or(s: &mut String, text: &Option<String>, otherwise: &str)
    ensures
        final(s)@ == old(s)@ + (match *text {
            Some(t) => t@,
            None => otherwise@,
        }),
{
    match text {
        Some(t) => s.append(t.as_str()),
        None => s.append(otherwise),
    }
}

fn section_heading(section: &ReviewSection) -> (s: String)
    ensures
        s@ == heading_of(*section),
{
    let mut s = "── ".to_owned();
    append_or(&mut s, &section.label, "Change");
    s.append(" · ");
    append_or(&mut s, &section.old_path, "∅");
    s.append(" → ");
    append_or(&mut s, &section.new_path, "∅");
    s
}

/// A model of the source coordinates of a row.
pub ghost struct Target {
    pub old: Option<(Seq<char>, usize)>,
    pub new: Option<(Seq<char>, usize)>,
}

pub open spec fn place_model(place: Option<(String, usize)>) -> Option<(Seq<char>, usize)> {
    match place {
        Some((path, line)) => Some((path@, line)),
        None => None,
    }
}

pub open spec fn target_model(target: Option<CustomTarget>) -> Option<Target> {
    match target {
        Some(t) => Some(Target { old: place_model(t.old), new: place_model(t.new) }),
        None => None,
    }
}

pub open spec fn targets_model(list: Seq<Option<CustomTarget>>) -> Seq<Option<Target>> {
    list.map_values(|t: Option<CustomTarget>| target_model(t))
}

/// A line of a file, where both are known.
pub open spec fn place_of(path: Option<String>, line: Option<usize>) -> Option<
    (Seq<char>, usize),
> {
    match (path, line) {
        (Some(p), Some(n)) => Some((p@, n)),
        _ => None,
    }
}

fn place(path: &Option<String>, line: Option<usize>) -> (res: Option<(String, usize)>)
    ensures
        place_model(res) == place_of(*path, line),
{
    match (path, line) {
        (Some(p), Some(n)) => Some((p.clone(), n)),
        _ => None,
    }
}

pub open spec fn target_of(line: ReviewSectionLine, section: ReviewSection) -> Target {
    Target {
        old: place_of(section.old_path, line.old_line),
        new: place_of(section.new_path, line.new_line),
    }
}

/// Where a section's line belongs in the patch.
pub open spec fn info_of(line: ReviewSectionLine, lines: Seq<PatchLine>) -> PatchLine {
    if line.source_patch_line < lines.len() {
        lines[line.source_patch_line as int]
    } else {
        PatchLine {
            kind: line.kind,
            file: None,
            old_line: line.old_line,
            new_line: line.new_line,
        }
    }
}

fn custom_info(line: &ReviewSectionLine, lines: &Vec<PatchLine>) -> (info: PatchLine)
    ensures
        info == info_of(*line, lines@),
{
    if line.source_patch_line < lines.len() {
        lines[line.source_patch_line]
    } else {
        PatchLine {
            kind: line.kind,
            file: None,
            old_line: line.old_line,
            new_line: line.new_line,
        }
    }
}

/// A model of a rearranged review: its lines and their source coordinates.
pub ghost struct Custom {
    pub doc: Seq<DocLine>,
    pub targets: Seq<Option<Target>>,
}

impl Custom {
    pub open spec fn header(self, text: Seq<char>, group: Option<HighlightGroup>) -> Custom {
        Custom { doc: doc_header(self.doc, text, group), targets: self.targets.push(None) }
    }

    /// The review with a line of a section in the unified layout.
    pub open spec fn unified(
        self,
        line: ReviewSectionLine,
        section: ReviewSection,
        page: Page,
    ) -> Custom {
        if is_source(line.kind) {
            Custom {
                doc: doc_unified(
                    self.doc,
                    unified_cell(
                        info_of(line, page.lines),
                        line.source_patch_line as int,
                        line.text@,
                        page.code.of_line(line.source_patch_line as int),
                        page.tab_width,
                        marker_of(line.kind),
                    ),
                ),
                targets: self.targets.push(Some(target_of(line, section))),
            }
        } else {
            self.header(line.text@, Some(structural_of(line.kind, line.text@)))
        }
    }

    /// The review with a pair of lines of a section; all its rows have the
    /// same source coordinates.
    pub open spec fn pair(
        self,
        removed: Option<ReviewSectionLine>,
        added: Option<ReviewSectionLine>,
        section: ReviewSection,
        page: Page,
    ) -> Custom {
        let old = match removed {
            Some(l) => Some(l.source_patch_line),
            None => None,
        };
        let new = match added {
            Some(l) => Some(l.source_patch_line),
            None => None,
        };
        let target = Target {
            old: match removed {
                Some(l) => place_of(section.old_path, l.old_line),
                None => None,
            },
            new: match added {
                Some(l) => place_of(section.new_path, l.new_line),
                None => None,
            },
        };
        Custom {
            doc: with_pair(self.doc, page, old, new),
            targets: self.targets + Seq::new(
                pair_rows(page, old, new) as nat,
                |i: int| Some(target),
            ),
        }
    }

    /// The review with the first `k` pairs of removed and added lines, given
    /// by their positions in the section.
    pub open spec fn pairs(
        self,
        removed: Seq<usize>,
        added: Seq<usize>,
        section: ReviewSection,
        page: Page,
        k: int,
    ) -> Custom
        decreases k,
    {
        if k <= 0 {
            self
        } else {
            self.pairs(removed, added, section, page, k - 1).pair(
                nth_line(section, removed, k - 1),
                nth_line(section, added, k - 1),
                section,
                page,
            )
        }
    }

    pub open spec fn flushed(
        self,
        removed: Seq<usize>,
        added: Seq<usize>,
        section: ReviewSection,
        page: Page,
    ) -> Custom {
        self.pairs(
            removed,
            added,
            section,
            page,
            at_least(removed.len() as int, added.len() as int),
        )
    }
}

/// The section line that is `k`th in a list of positions.
pub open spec fn nth_line(section: ReviewSection, list: Seq<usize>, k: int) -> Option<
    ReviewSectionLine,
> {
    if k < list.len() {
        Some(section.lines@[list[k] as int])
    } else {
        None
    }
}

/// Whether a line is left out because its change leaves the file equal.
pub open spec fn is_hidden(section: ReviewSection, hide_equal: bool, line: ReviewSectionLine) -> bool {
    hide_equal && section.equal_changes@.contains(line.source_patch_line)
}

/// The lines of a section that are shown side by side are lines of the patch.
pub open spec fn section_in_patch(section: ReviewSection, hide_equal: bool, count: int) -> bool {
    section_skipped(section, hide_equal) || forall|k: int|
        0 <= k < section.lines.len() && is_source((#[trigger] section.lines@[k]).kind)
            && !is_hidden(section, hide_equal, section.lines@[k])
            ==> section.lines@[k].source_patch_line < count
}

/// The unified layout of the first `k` lines of a section.
pub open spec fn section_unified(
    start: Custom,
    section: ReviewSection,
    hide_equal: bool,
    page: Page,
    k: int,
) -> Custom
    decreases k,
{
    if k <= 0 || k > section.lines@.len() {
        start
    } else {
        let c = section_unified(start, section, hide_equal, page, k - 1);
        let line = section.lines@[k - 1];
        if is_hidden(section, hide_equal, line) {
            c
        } else {
            c.unified(line, section, page)
        }
    }
}

/// A side-by-side section under construction.
pub ghost struct CustomSplit {
    pub custom: Custom,
    pub old: Seq<usize>,
    pub new: Seq<usize>,
}

/// The side-by-side layout of the first `k` lines of a section.
pub open spec fn section_split(
    start: Custom,
    section: ReviewSection,
    hide_equal: bool,
    page: Page,
    k: int,
) -> CustomSplit
    decreases k,
{
    if k <= 0 || k > section.lines@.len() {
        CustomSplit { custom: start, old: Seq::empty(), new: Seq::empty() }
    } else {
        let s = section_split(start, section, hide_equal, page, k - 1);
        let line = section.lines@[k - 1];
        if is_hidden(section, hide_equal, line) {
            s
        } else {
            match line.kind {
                PatchLineKind::Removed => CustomSplit { old: s.old.push((k - 1) as usize), ..s },
                PatchLineKind::Added => CustomSplit { new: s.new.push((k - 1) as usize), ..s },
                PatchLineKind::Context => CustomSplit {
                    custom: s.custom.flushed(s.old, s.new, section, page).pair(
                        Some(line),
                        Some(line),
                        section,
                        page,
                    ),
                    old: Seq::empty(),
                    new: Seq::empty(),
                },
                _ => CustomSplit {
                    custom: s.custom.flushed(s.old, s.new, section, page).header(
                        line.text@,
                        Some(structural_of(line.kind, line.text@)),
                    ),
                    old: Seq::empty(),
                    new: Seq::empty(),
                },
            }
        }
    }
}

/// Whether a section shows nothing but changes that leave the file equal.
pub open spec fn section_skipped(section: ReviewSection, hide_equal: bool) -> bool {
    &&& hide_equal
    &&& section.equal_changes@.len() > 0
    &&& forall|k: int|
        0 <= k < section.lines@.len() ==> {
            let line = #[trigger] section.lines@[k];
            &&& !(line.kind is Meta)
            &&& (line.kind is Added || line.kind is Removed) ==> is_hidden(
                section,
                hide_equal,
                line,
            )
        }
}

/// Whether a section speaks of a file.
pub open spec fn section_names(section: ReviewSection, file: DiffFile) -> bool {
    ||| opt_view(section.new_path) == Some(file.path@)
    ||| opt_view(section.old_path) == Some(file.path@)
    ||| (section.old_path is Some && opt_view(section.old_path) == opt_view(file.old_path))
}

/// The file starts after a section whose heading stands at `line`.
pub open spec fn section_files(
    starts: Seq<usize>,
    files: Seq<DiffFile>,
    section: ReviewSection,
    line: int,
) -> Seq<usize> {
    Seq::new(
        starts.len(),
        |i: int|
            if starts[i] == usize::MAX && section_names(section, files[i]) {
                line as usize
            } else {
                starts[i]
            },
    )
}

/// A rearranged review under construction: its lines, the lines of its
/// headings, and the file starts.
pub ghost struct CustomBody {
    pub custom: Custom,
    pub hunks: Seq<usize>,
    pub files: Seq<usize>,
}

/// The review with a section.
pub open spec fn with_section(
    b: CustomBody,
    section: ReviewSection,
    files: Seq<DiffFile>,
    layout: DiffLayout,
    hide_equal: bool,
    page: Page,
) -> CustomBody {
    if section_skipped(section, hide_equal) {
        b
    } else {
        let at = b.custom.doc.len() as int;
        let headed = b.custom.header(heading_of(section), Some(HighlightGroup::DiffHeader));
        let n = section.lines@.len() as int;
        let shown = match layout {
            DiffLayout::Unified => section_unified(headed, section, hide_equal, page, n),
            DiffLayout::Split => {
                let s = section_split(headed, section, hide_equal, page, n);
                s.custom.flushed(s.old, s.new, section, page)
            },
        };
        CustomBody {
            custom: shown.header(""@, None),
            hunks: b.hunks.push(at as usize),
            files: section_files(b.files, files, section, at),
        }
    }
}

/// The review after its first `k` sections.
pub open spec fn sections_body(
    start: CustomBody,
    sections: Seq<ReviewSection>,
    files: Seq<DiffFile>,
    layout: DiffLayout,
    hide_equal: bool,
    page: Page,
    k: int,
) -> CustomBody
    decreases k,
{
    if k <= 0 || k > sections.len() {
        start
    } else {
        with_section(
            sections_body(start, sections, files, layout, hide_equal, page, k - 1),
            sections[k - 1],
            files,
            layout,
            hide_equal,
            page,
        )
    }
}

/// The lines above the sections.
pub open spec fn custom_top(
    patch: ReviewPatch,
    title: Seq<char>,
    layout: DiffLayout,
    hide_equal: bool,
) -> Seq<DocLine> {
    let n = patch.files@.len() as int;
    let titled = doc_header(Seq::empty(), title, Some(HighlightGroup::DiffHeader));
    let compared = doc_header(
        titled,
        patch.base.name@ + " → "@ + patch.head@ + " / worktree · +"@ + digits(
            additions_of(patch.files@, n),
        ) + " −"@ + digits(deletions_of(patch.files@, n)) + " · saved comparison"@,
        Some(HighlightGroup::Comment),
    );
    let hinted = doc_header(
        with_toolbar(compared, layout),
        CUSTOM_KEY_HINT@,
        Some(HighlightGroup::Comment),
    );
    doc_header(
        doc_header(hinted, ""@, None),
        if hide_equal {
            "Hide equal changes: on (same file, ignoring whitespace)"@
        } else {
            "Hide equal changes: off · w to toggle"@
        },
        Some(HighlightGroup::Comment),
    )
}

pub const CUSTOM_KEY_HINT: &'static str = "# Enter open source · ]c [c section · o live/overlay · O saved · s layout · w hide equal · r refresh/redraw · q close";

/// The whole rearranged review.
pub open spec fn custom_body(
    custom: CustomReview,
    code: PatchHighlights,
    title: Seq<char>,
    layout: DiffLayout,
    width: int,
    tab_width: int,
    hide_equal: bool,
) -> CustomBody {
    let patch = custom.snapshot.patch;
    let top = custom_top(patch, title, layout, hide_equal);
    let start = CustomBody {
        custom: Custom { doc: top, targets: Seq::new(top.len(), |i: int| None) },
        hunks: Seq::empty(),
        files: Seq::new(patch.files@.len(), |i: int| usize::MAX),
    };
    let all = sections_body(
        start,
        custom.sections@,
        patch.files@,
        layout,
        hide_equal,
        page_of(patch, code, width, tab_width),
        custom.sections@.len() as int,
    );
    if hide_equal && all.hunks.len() == 0 {
        CustomBody {
            custom: all.custom.header("No unequal changes"@, Some(HighlightGroup::Comment)),
            ..all
        }
    } else {
        all
    }
}

fn copy_place(place: &Option<(String, usize)>) -> (res: Option<(String, usize)>)
    ensures
        place_model(res) == place_model(*place),
{
    match place {
        Some((path, line)) => Some((path.clone(), *line)),
        None => None,
    }
}

/// Source coordinates for the rows that were added since `targets` was last
/// brought up to date.
fn extend_targets(targets: &mut Vec<Option<CustomTarget>>, len: usize, target: &CustomTarget)
    requires
        old(targets).len() <= len,
    ensures
        targets_model(final(targets)@) == targets_model(old(targets)@) + Seq::new(
            (len - old(targets).len()) as nat,
            |i: int| target_model(Some(*target)),
        ),
{
    let ghost before = targets_model(targets@);
    let ghost t = target_model(Some(*target));
    proof {
        assert(before =~= before + Seq::new(0nat, |i: int| t));
    }
    while targets.len() < len
        invariant
            old(targets).len() <= targets.len() <= len,
            before.len() == old(targets).len(),
            t == target_model(Some(*target)),
            targets_model(targets@) == before + Seq::new(
                (targets.len() - old(targets).len()) as nat,
                |i: int| t,
            ),
        decreases len - targets.len(),
    {
        let copy = CustomTarget { old: copy_place(&target.old), new: copy_place(&target.new) };
        let ghost earlier = targets_model(targets@);
        targets.push(Some(copy));
        proof {
            assert(targets_model(targets@) =~= earlier.push(t));
            assert(targets_model(targets@) =~= before + Seq::new(
                (targets.len() - old(targets).len()) as nat,
                |i: int| t,
            ));
        }
    }
}

fn custom_header(
    builder: &mut Builder,
    targets: &mut Vec<Option<CustomTarget>>,
    text: &str,
    group: Option<HighlightGroup>,
) -> (at: usize)
    requires
        old(builder).wf(),
    ensures
        final(builder).wf(),
        at == old(builder).model().len(),
        (Custom { doc: final(builder).model(), targets: targets_model(final(targets)@) }) == (
        Custom {
            doc: old(builder).model(),
            targets: targets_model(old(targets)@),
        }).header(text@, group),
        final(targets).len() == old(targets).len() + 1,
        final(builder).model().len() == old(builder).model().len() + 1,
{
    let ghost before = targets_model(targets@);
    let at: usize = builder.header(text, group);
    targets.push(None);
    proof {
        assert(targets_model(targets@) =~= before.push(None));
    }
    at
}

proof fn pair_rows_len(
    doc: Seq<DocLine>,
    page: Page,
    old: Option<usize>,
    new: Option<usize>,
    k: int,
)
    requires
        k >= 0,
    ensures
        with_pair_rows(doc, page, old, new, k).len() == doc.len() + k,
    decreases k,
{
    if k > 0 {
        pair_rows_len(doc, page, old, new, k - 1);
    }
}

#[verifier::rlimit(60)]
fn emit_custom_pair(
    section: &ReviewSection,
    removed: Option<usize>,
    added: Option<usize>,
    page: &PageSource<'_>,
    builder: &mut Builder,
    targets: &mut Vec<Option<CustomTarget>>,
)
    requires
        page.wf(),
        old(builder).wf(),
        old(targets).len() == old(builder).model().len(),
        removed matches Some(i) ==> i < section.lines.len()
            && section.lines@[i as int].source_patch_line < page.lines.len(),
        added matches Some(i) ==> i < section.lines.len()
            && section.lines@[i as int].source_patch_line < page.lines.len(),
    ensures
        final(builder).wf(),
        final(targets).len() == final(builder).model().len(),
        (Custom { doc: final(builder).model(), targets: targets_model(final(targets)@) }) == (
        Custom {
            doc: old(builder).model(),
            targets: targets_model(old(targets)@),
        }).pair(
            match removed {
                Some(i) => Some(section.lines@[i as int]),
                None => None,
            },
            match added {
                Some(i) => Some(section.lines@[i as int]),
                None => None,
            },
            *section,
            page.model(),
        ),
{
    let old_source = match removed {
        Some(i) => Some(section.lines[i].source_patch_line),
        None => None,
    };
    let new_source = match added {
        Some(i) => Some(section.lines[i].source_patch_line),
        None => None,
    };
    proof {
        pair_rows_len(
            builder.model(),
            page.model(),
            old_source,
            new_source,
            pair_rows(page.model(), old_source, new_source),
        );
    }
    emit_pair(page, builder, old_source, new_source);
    let target = CustomTarget {
        old: match removed {
            Some(i) => place(&section.old_path, section.lines[i].old_line),
            None => None,
        },
        new: match added {
            Some(i) => place(&section.new_path, section.lines[i].new_line),
            None => None,
        },
    };
    let len: usize = builder.len();
    extend_targets(targets, len, &target);
    proof {
        let c = (Custom { doc: old(builder).model(), targets: targets_model(old(targets)@) }).pair(
            match removed {
                Some(i) => Some(section.lines@[i as int]),
                None => None,
            },
            match added {
                Some(i) => Some(section.lines@[i as int]),
                None => None,
            },
            *section,
            page.model(),
        );
        assert(targets_model(targets@) =~= c.targets);
    }
}

/// The lines of a list are lines of a section and of the patch.
spec fn drawable(list: Seq<usize>, section: ReviewSection, count: int) -> bool {
    forall|k: int|
        0 <= k < list.len() ==> #[trigger] list[k] < section.lines.len()
            && section.lines@[list[k] as int].source_patch_line < count
}

#[verifier::rlimit(60)]
fn flush_custom_pair(
    section: &ReviewSection,
    removed: &mut Vec<usize>,
    added: &mut Vec<usize>,
    page: &PageSource<'_>,
    builder: &mut Builder,
    targets: &mut Vec<Option<CustomTarget>>,
)
    requires
        page.wf(),
        old(builder).wf(),
        old(targets).len() == old(builder).model().len(),
        drawable(old(removed)@, *section, page.lines.len() as int),
        drawable(old(added)@, *section, page.lines.len() as int),
    ensures
        final(builder).wf(),
        final(targets).len() == final(builder).model().len(),
        (Custom { doc: final(builder).model(), targets: targets_model(final(targets)@) }) == (
        Custom {
            doc: old(builder).model(),
            targets: targets_model(old(targets)@),
        }).flushed(old(removed)@, old(added)@, *section, page.model()),
        final(removed)@ == Seq::<usize>::empty(),
        final(added)@ == Seq::<usize>::empty(),
{
    let rows: usize = if removed.len() < added.len() {
        added.len()
    } else {
        removed.len()
    };
    let ghost start = Custom { doc: builder.model(), targets: targets_model(targets@) };
    let mut row: usize = 0;
    while row < rows
        invariant
            row <= rows == at_least(removed.len() as int, added.len() as int),
            page.wf(),
            builder.wf(),
            targets.len() == builder.model().len(),
            removed@ == old(removed)@,
            added@ == old(added)@,
            drawable(removed@, *section, page.lines.len() as int),
            drawable(added@, *section, page.lines.len() as int),
            (Custom { doc: builder.model(), targets: targets_model(targets@) }) == start.pairs(
                removed@,
                added@,
                *section,
                page.model(),
                row as int,
            ),
        decreases rows - row,
    {
        let left = if row < removed.len() {
            Some(removed[row])
        } else {
            None
        };
        let right = if row < added.len() {
            Some(added[row])
        } else {
            None
        };
        emit_custom_pair(section, left, right, page, builder, targets);
        row += 1;
    }
    removed.clear();
    added.clear();
}

fn emit_custom_unified(
    line: &ReviewSectionLine,
    section: &ReviewSection,
    page: &PageSource<'_>,
    builder: &mut Builder,
    targets: &mut Vec<Option<CustomTarget>>,
)
    requires
        old(builder).wf(),
        old(targets).len() == old(builder).model().len(),
    ensures
        final(builder).wf(),
        final(targets).len() == final(builder).model().len(),
        (Custom { doc: final(builder).model(), targets: targets_model(final(targets)@) }) == (
        Custom {
            doc: old(builder).model(),
            targets: targets_model(old(targets)@),
        }).unified(*line, *section, page.model()),
{
    if !is_source_line(line.kind) {
        let text = line.text.as_str();
        let _ = custom_header(
            builder,
            targets,
            text,
            Some(structural_group(line.kind, text)),
        );
        return;
    }
    let ghost before = targets_model(targets@);
    push_unified(
        builder,
        custom_info(line, page.lines),
        line.source_patch_line,
        line.text.as_str(),
        page.code,
        page.tab_width,
        marker_for(line.kind),
    );
    let target = CustomTarget {
        old: place(&section.old_path, line.old_line),
        new: place(&section.new_path, line.new_line),
    };
    let ghost t = target_model(Some(target));
    targets.push(Some(target));
    proof {
        assert(targets_model(targets@) =~= before.push(t));
    }
}

/// Whether a section shows nothing but changes that leave the file equal.
fn skips_section(section: &ReviewSection, hide_equal: bool) -> (res: bool)
    ensures
        res == section_skipped(*section, hide_equal),
{
    if !hide_equal || section.equal_changes.len() == 0 {
        return false;
    }
    let mut k: usize = 0;
    while k < section.lines.len()
        invariant
            k <= section.lines.len(),
            hide_equal,
            section.equal_changes.len() > 0,
            forall|j: int|
                0 <= j < k ==> {
                    let line = #[trigger] section.lines@[j];
                    &&& !(line.kind is Meta)
                    &&& (line.kind is Added || line.kind is Removed) ==> is_hidden(
                        *section,
                        hide_equal,
                        line,
                    )
                },
        decreases section.lines.len() - k,
    {
        let line = &section.lines[k];
        let remains = match line.kind {
            PatchLineKind::Meta => true,
            PatchLineKind::Added | PatchLineKind::Removed => !section.is_equal_change(
                line.source_patch_line,
            ),
            _ => false,
        };
        if remains {
            proof {
                assert(section.lines@[k as int] == *line);
            }
            return false;
        }
        k += 1;
    }
    true
}

fn same_path(path: &Option<String>, other: &str) -> (res: bool)
    ensures
        res == (opt_view(*path) == Some(other@)),
{
    match path {
        Some(p) => same_text(p.as_str(), other),
        None => false,
    }
}

fn note_section_files(
    starts: &mut Vec<usize>,
    files: &Vec<DiffFile>,
    section: &ReviewSection,
    line: usize,
)
    requires
        old(starts).len() == files.len(),
    ensures
        final(starts)@ == section_files(old(starts)@, files@, *section, line as int),
{
    let ghost before = starts@;
    let mut k: usize = 0;
    while k < files.len()
        invariant
            k <= files.len() == starts.len(),
            before.len() == starts.len(),
            forall|i: int|
                0 <= i < k ==> starts@[i] == section_files(
                    before,
                    files@,
                    *section,
                    line as int,
                )[i],
            forall|i: int| k <= i < starts.len() ==> starts@[i] == before[i],
        decreases files.len() - k,
    {
        let file = &files[k];
        if starts[k] == usize::MAX {
            let named = same_path(&section.new_path, file.path.as_str()) || same_path(
                &section.old_path,
                file.path.as_str(),
            ) || (section.old_path.is_some() && same_option(&section.old_path, &file.old_path));
            if named {
                starts[k] = line;
            }
        }
        k += 1;
    }
    proof {
        assert(starts@ =~= section_files(before, files@, *section, line as int));
    }
}

#[verifier::rlimit(60)]
fn emit_section(
    section: &ReviewSection,
    layout: DiffLayout,
    hide_equal: bool,
    page: &PageSource<'_>,
    builder: &mut Builder,
    targets: &mut Vec<Option<CustomTarget>>,
)
    requires
        page.wf(),
        old(builder).wf(),
        old(targets).len() == old(builder).model().len(),
        !section_skipped(*section, hide_equal),
        layout is Split ==> section_in_patch(*section, hide_equal, page.lines.len() as int),
    ensures
        final(builder).wf(),
        final(targets).len() == final(builder).model().len(),
        ({
            let start = Custom {
                doc: old(builder).model(),
                targets: targets_model(old(targets)@),
            };
            let n = section.lines.len() as int;
            let done = Custom {
                doc: final(builder).model(),
                targets: targets_model(final(targets)@),
            };
            match layout {
                DiffLayout::Unified => done == section_unified(
                    start,
                    *section,
                    hide_equal,
                    page.model(),
                    n,
                ),
                DiffLayout::Split => {
                    let s = section_split(start, *section, hide_equal, page.model(), n);
                    done == s.custom.flushed(s.old, s.new, *section, page.model())
                },
            }
        }),
{
    let ghost start = Custom { doc: builder.model(), targets: targets_model(targets@) };
    let ghost model = page.model();
    let mut k: usize = 0;
    match layout {
        DiffLayout::Unified => {
            while k < section.lines.len()
                invariant
                    k <= section.lines.len(),
                    builder.wf(),
                    model == page.model(),
                    targets.len() == builder.model().len(),
                    (Custom { doc: builder.model(), targets: targets_model(targets@) })
                        == section_unified(start, *section, hide_equal, model, k as int),
                decreases section.lines.len() - k,
            {
                let line = &section.lines[k];
                if !(hide_equal && section.is_equal_change(line.source_patch_line)) {
                    emit_custom_unified(line, section, page, builder, targets);
                }
                k += 1;
            }
        },
        DiffLayout::Split => {
            let mut removed: Vec<usize> = Vec::new();
            let mut added: Vec<usize> = Vec::new();
            while k < section.lines.len()
                invariant
                    k <= section.lines.len(),
                    page.wf(),
                    builder.wf(),
                    model == page.model(),
                    targets.len() == builder.model().len(),
                    !section_skipped(*section, hide_equal),
                    section_in_patch(*section, hide_equal, page.lines.len() as int),
                    drawable(removed@, *section, page.lines.len() as int),
                    drawable(added@, *section, page.lines.len() as int),
                    (CustomSplit {
                        custom: Custom { doc: builder.model(), targets: targets_model(targets@) },
                        old: removed@,
                        new: added@,
                    }) == section_split(start, *section, hide_equal, model, k as int),
                decreases section.lines.len() - k,
            {
                let line = &section.lines[k];
                if !(hide_equal && section.is_equal_change(line.source_patch_line)) {
                    match line.kind {
                        PatchLineKind::Removed => removed.push(k),
                        PatchLineKind::Added => added.push(k),
                        PatchLineKind::Context => {
                            flush_custom_pair(
                                section,
                                &mut removed,
                                &mut added,
                                page,
                                builder,
                                targets,
                            );
                            emit_custom_pair(section, Some(k), Some(k), page, builder, targets);
                        },
                        _ => {
                            flush_custom_pair(
                                section,
                                &mut removed,
                                &mut added,
                                page,
                                builder,
                                targets,
                            );
                            let text = line.text.as_str();
                            let _ = custom_header(
                                builder,
                                targets,
                                text,
                                Some(structural_group(line.kind, text)),
                            );
                        },
                    }
                }
                k += 1;
            }
            flush_custom_pair(section, &mut removed, &mut added, page, builder, targets);
        },
    }
}

/// Renders a saved arrangement from the same patch that the regular review
/// uses. Section paths are independent, which makes moves across files visible
/// in both layouts.
#[verifier::rlimit(60)]
pub fn render_custom(
    custom: &CustomReview,
    code: PatchHighlights,
    title: &str,
    layout: DiffLayout,
    width: usize,
    tab_width: usize,
    hide_equal: bool,
) -> (rendered: Rendered)
    requires
        width <= usize::MAX - 64,
        layout is Split ==> forall|k: int|
            0 <= k < custom.sections.len() ==> section_in_patch(
                #[trigger] custom.sections@[k],
                hide_equal,
                custom.snapshot.patch.lines.len() as int,
            ),
    ensures
        ({
            let body = custom_body(
                *custom,
                code,
                title@,
                layout,
                width as int,
                tab_width as int,
                hide_equal,
            );
            let doc = body.custom.doc;
            &&& rendered.title@ == DIFF_REVIEW_TITLE_PREFIX@ + title@
            &&& shows(rendered, doc)
            &&& rendered.stat_rows.len() == 0
            &&& rendered.hunk_lines@ == body.hunks
            &&& rendered.file_lines@ == if hide_equal {
                body.files
            } else {
                with_fallback(body.files, at_least(doc.len() - 1, 0))
            }
            &&& is_toolbar(rendered.toolbar, 3, layout)
            &&& rendered.code_highlights@.map_values(|h: Vec<Highlight>| marks(h@)) == code.model()
            &&& targets_model(rendered.custom_targets@) == body.custom.targets
        }),
{
    let patch = &custom.snapshot.patch;
    let raw = raw_lines(patch);
    let bodies = patch_bodies(patch);
    let (number_width, text_width) = split_columns(&patch.lines, width);
    let page = PageSource {
        lines: &patch.lines,
        raw: &raw,
        bodies: &bodies,
        code: &code,
        tab_width,
        number_width,
        text_width,
    };
    proof {
        assert(page.model() == page_of(*patch, code, width as int, tab_width as int));
    }
    let mut builder = Builder::new();
    let _ = builder.header(title, Some(HighlightGroup::DiffHeader));
    let mut compared = patch.base.name.clone();
    compared.append(" → ");
    compared.append(patch.head.as_str());
    compared.append(" / worktree · +");
    compared.append(decimal(patch.additions() as u64).as_str());
    compared.append(" −");
    compared.append(decimal(patch.deletions() as u64).as_str());
    compared.append(" · saved comparison");
    let _ = builder.header(compared.as_str(), Some(HighlightGroup::Comment));
    let toolbar = render_toolbar(layout, &mut builder);
    let _ = builder.header(CUSTOM_KEY_HINT, Some(HighlightGroup::Comment));
    let _ = builder.header("", None);
    let _ = builder.header(
        if hide_equal {
            "Hide equal changes: on (same file, ignoring whitespace)"
        } else {
            "Hide equal changes: off · w to toggle"
        },
        Some(HighlightGroup::Comment),
    );
    let ghost top = custom_top(*patch, title@, layout, hide_equal);
    proof {
        assert(builder.model() == top);
    }
    let mut targets: Vec<Option<CustomTarget>> = Vec::new();
    let count: usize = builder.len();
    while targets.len() < count
        invariant
            targets.len() <= count,
            forall|i: int| 0 <= i < targets.len() ==> targets@[i] is None,
        decreases count - targets.len(),
    {
        targets.push(None);
    }
    let mut hunk_lines: Vec<usize> = Vec::new();
    let mut file_lines: Vec<usize> = unset_lines(patch.files.len());
    let ghost start = CustomBody {
        custom: Custom { doc: top, targets: Seq::new(top.len(), |i: int| None) },
        hunks: Seq::empty(),
        files: Seq::new(patch.files@.len(), |i: int| usize::MAX),
    };
    proof {
        assert(targets_model(targets@) =~= start.custom.targets);
        assert(hunk_lines@ =~= start.hunks);
    }
    let mut k: usize = 0;
    while k < custom.sections.len()
        invariant
            k <= custom.sections.len(),
            page.wf(),
            page.lines == &patch.lines,
            patch == &custom.snapshot.patch,
            builder.wf(),
            targets.len() == builder.model().len(),
            file_lines.len() == patch.files.len(),
            layout is Split ==> forall|k: int|
                0 <= k < custom.sections.len() ==> section_in_patch(
                    #[trigger] custom.sections@[k],
                    hide_equal,
                    custom.snapshot.patch.lines.len() as int,
                ),
            (CustomBody {
                custom: Custom { doc: builder.model(), targets: targets_model(targets@) },
                hunks: hunk_lines@,
                files: file_lines@,
            }) == sections_body(
                start,
                custom.sections@,
                patch.files@,
                layout,
                hide_equal,
                page.model(),
                k as int,
            ),
        decreases custom.sections.len() - k,
    {
        let section = &custom.sections[k];
        if !skips_section(section, hide_equal) {
            let at: usize = custom_header(
                &mut builder,
                &mut targets,
                section_heading(section).as_str(),
                Some(HighlightGroup::DiffHeader),
            );
            hunk_lines.push(at);
            note_section_files(&mut file_lines, &patch.files, section, at);
            emit_section(section, layout, hide_equal, &page, &mut builder, &mut targets);
            let _ = custom_header(&mut builder, &mut targets, "", None);
        }
        k += 1;
    }
    if hide_equal && hunk_lines.len() == 0 {
        let _ = custom_header(
            &mut builder,
            &mut targets,
            "No unequal changes",
            Some(HighlightGroup::Comment),
        );
    }
    let fallback: usize = builder.len().saturating_sub(1);
    if !hide_equal {
        file_lines = fill_fallback(&file_lines, fallback);
    }
    let mut full_title = DIFF_REVIEW_TITLE_PREFIX.to_owned();
    full_title.append(title);
    let text = builder.text();
    let ghost doc = builder.model();
    let rendered = Rendered {
        title: full_title,
        text,
        rows: builder.rows,
        stat_rows: Vec::new(),
        hunk_lines,
        file_lines,
        toolbar,
        highlights: builder.highlights,
        code_highlights: code.into_lines(),
        custom_targets: targets,
    };
    proof {
        assert(rendered.rows@ =~= doc.map_values(|l: DocLine| l.row));
        assert(rendered.highlights@.map_values(|h: Vec<Highlight>| marks(h@)) =~= doc.map_values(
            |l: DocLine| l.spans,
        ));
    }
    rendered
}

} // verus!
