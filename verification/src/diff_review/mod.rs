//! The branch review: a buffer that shows what a branch changed.
//!
//! The review knows for each line of its buffer which line of the patch, and
//! so which line of which file, it shows.
use crate::diff_review::highlight::{copy_lines, line_marks, Mark, PatchHighlights};
use crate::diff_review::render::{
    cluster_bytes, doc_text, glyph_models, glyphs_of, header_doc, is_source, is_toolbar,
    layout_body, render, review_body, stat_rows_of, tint_of, with_fallback, at_least, DiffLayout,
    DocLine, Rendered, ReviewCell, ReviewRow, Toolbar, DIFF_REVIEW_TITLE_PREFIX,
};
use crate::fmt::{byte_count, byte_len, last_line, lines_left, opt_view, text_line, text_line_count};
use crate::highlight_index::Highlight;
use crate::lines::{content_end, line_break_from, line_break_is, line_content, line_start};
use crate::native_diff::{DiffFile, PatchLine, PatchLineKind, ReviewBase, ReviewPatch};
use crate::text::{chars_of, same_text, slice_string};
use crate::text_index::{char_bytes, utf8_width};
use crate::unicode::{graphemes, graphemes_of, views};
use std::ops::Range;
use vstd::prelude::*;

pub mod highlight;
pub mod places;
pub mod render;
pub mod shown_lines;

verus! {

/// State of the open branch review.
pub struct DiffReviewState {
    /// The buffer that shows the patch.
    pub buffer_id: usize,
    /// The buffer that was shown when the review was entered. Files open in
    /// the tab that shows it.
    pub origin_buffer_id: Option<usize>,
    /// The tab that the review was entered from, for when no tab shows that
    /// buffer any more.
    pub origin_tab: usize,
    /// A comparison that the user chose.
    pub explicit_spec: Option<String>,
    pub layout: DiffLayout,
    /// The patch that the buffer shows.
    pub patch: ReviewPatch,
    /// The text width that the patch is laid out for.
    pub layout_width: u16,
    /// The width of the area that gave that text width. Laying out anew
    /// depends on it and not on the text width, which also changes with the
    /// line numbers.
    pub layout_area_width: u16,
    /// What each line of the buffer shows.
    pub rows: Vec<ReviewRow>,
    /// The line and the file of each row of the file summary.
    pub stat_rows: Vec<(usize, usize)>,
    pub hunk_lines: Vec<usize>,
    /// The line where each file starts.
    pub file_lines: Vec<usize>,
    /// The same lines in the order of the buffer.
    pub file_nav: Vec<usize>,
    pub toolbar: Toolbar,
    /// The lines of the buffer.
    pub text_lines: Vec<String>,
    /// The language highlights of the patch lines.
    pub code: Vec<Vec<Highlight>>,
    /// The highlights of the buffer's lines.
    pub highlights: Vec<Vec<Highlight>>,
}

/// A model of the open branch review.
pub ghost struct Review {
    pub buffer_id: usize,
    pub origin_buffer_id: Option<usize>,
    pub origin_tab: usize,
    pub spec: Option<Seq<char>>,
    pub layout: DiffLayout,
    pub patch: ReviewPatch,
    pub width: u16,
    pub area_width: u16,
    pub code: Seq<Seq<Mark>>,
    pub page: Drawn,
}

/// A model of what a review shows.
pub ghost struct Drawn {
    pub rows: Seq<ReviewRow>,
    pub stat_rows: Seq<(usize, usize)>,
    pub hunks: Seq<usize>,
    pub file_lines: Seq<usize>,
    pub file_nav: Seq<usize>,
    pub toolbar: Toolbar,
    pub lines: Seq<Seq<char>>,
    pub marks: Seq<Seq<Mark>>,
}

/// Where a place of a review is in the source.
#[derive(Debug)]
pub struct Anchor {
    pub path: String,
    pub new_line: usize,
    /// The text of the patch line, where the place was on one.
    pub text: Option<String>,
}

/// A model of an anchor.
pub ghost struct Place {
    pub path: Seq<char>,
    pub line: usize,
    pub text: Option<Seq<char>>,
}

impl Anchor {
    pub open spec fn model(self) -> Place {
        Place { path: self.path@, line: self.new_line, text: opt_view(self.text) }
    }
}

pub open spec fn review_model(r: Option<DiffReviewState>) -> Option<Review> {
    match r {
        Some(r) => Some(r.model()),
        None => None,
    }
}

pub open spec fn fetch_model(f: Option<PendingGitFetch>) -> Option<Seq<char>> {
    match f {
        Some(f) => Some(f.target@),
        None => None,
    }
}

/// A fetch of the review's base that runs.
#[derive(Debug)]
pub struct PendingGitFetch {
    pub target: String,
}

pub open spec fn row_info(row: ReviewRow) -> Option<PatchLine> {
    match (row.left, row.right) {
        (Some(cell), _) => Some(cell.info),
        (None, Some(cell)) => Some(cell.info),
        (None, None) => None,
    }
}

/// What a line of the review shows of the patch.
pub open spec fn info_at(rows: Seq<ReviewRow>, line: int) -> Option<PatchLine> {
    if 0 <= line < rows.len() {
        row_info(rows[line])
    } else {
        None
    }
}

/// The first hunk of a file at or below row `k`, before a row that shows
/// nothing of the patch.
pub open spec fn hunk_below(rows: Seq<ReviewRow>, k: int, file: usize) -> Option<PatchLine>
    decreases rows.len() - k,
{
    if k < 0 || k >= rows.len() {
        None
    } else {
        match row_info(rows[k]) {
            None => None,
            Some(p) => if p.file == Some(file) && p.kind is HunkHeader {
                Some(p)
            } else {
                hunk_below(rows, k + 1, file)
            },
        }
    }
}

/// The file and the line that a part of a row leads to: the line of the new
/// side; for headers that of the hunk below; else the first.
pub open spec fn target_at(rows: Seq<ReviewRow>, line: int, info: PatchLine) -> Option<(usize, usize)> {
    match info.file {
        None => None,
        Some(file) => Some(
            (
                file,
                match info.new_line {
                    Some(n) => n,
                    None => match hunk_below(rows, line + 1, file) {
                        Some(p) => match p.new_line {
                            Some(n) => n,
                            None => 1,
                        },
                        None => 1,
                    },
                },
            ),
        ),
    }
}

/// The file of a row of the summary, looked for from the `k`th on.
pub open spec fn stat_file(stat_rows: Seq<(usize, usize)>, k: int, line: int) -> Option<usize>
    decreases stat_rows.len() - k,
{
    if k < 0 || k >= stat_rows.len() {
        None
    } else if stat_rows[k].0 == line {
        Some(stat_rows[k].1)
    } else {
        stat_file(stat_rows, k + 1, line)
    }
}

/// The index of a file, looked for from the `k`th on.
pub open spec fn file_index(files: Seq<DiffFile>, k: int, path: Seq<char>) -> Option<int>
    decreases files.len() - k,
{
    if k < 0 || k >= files.len() {
        None
    } else if files[k].path@ == path {
        Some(k)
    } else {
        file_index(files, k + 1, path)
    }
}

pub open spec fn apart(a: usize, b: usize) -> int {
    if a < b {
        b - a
    } else {
        a - b
    }
}

/// The line of a file that a row shows, headers of files left out.
pub open spec fn shown_line(rows: Seq<ReviewRow>, k: int, file: int) -> Option<usize> {
    match info_at(rows, k) {
        Some(p) => if p.file == Some(file as usize) && !(p.kind is FileHeader) {
            p.new_line
        } else {
            None
        },
        None => None,
    }
}

/// Of the first `k` rows, the first of those with a text whose lines are
/// nearest to a line.
pub open spec fn nearest_row(
    rows: Seq<ReviewRow>,
    lines: Seq<Seq<char>>,
    file: int,
    text: Seq<char>,
    line: usize,
    k: int,
) -> Option<(int, usize)>
    decreases k,
{
    if k <= 0 || k > rows.len() {
        None
    } else {
        let best = nearest_row(rows, lines, file, text, line, k - 1);
        match shown_line(rows, k - 1, file) {
            Some(n) if k - 1 < lines.len() && lines[k - 1] == text && (best is None || apart(n, line)
                < apart((best->0).1, line)) => Some((k - 1, n)),
            _ => best,
        }
    }
}

/// Of the first `k` rows, the first of those with the least line at or behind
/// a line.
pub open spec fn next_row(rows: Seq<ReviewRow>, file: int, line: usize, k: int) -> Option<
    (int, usize),
>
    decreases k,
{
    if k <= 0 || k > rows.len() {
        None
    } else {
        let best = next_row(rows, file, line, k - 1);
        match shown_line(rows, k - 1, file) {
            Some(n) if n >= line && (best is None || n < (best->0).1) => Some((k - 1, n)),
            _ => best,
        }
    }
}

/// A place of the patch's text, by line and column.
pub open spec fn body_of(patch: ReviewPatch, i: int) -> Option<Seq<char>> {
    if 0 <= i < text_line_count(patch.text@) && i < patch.lines@.len() {
        let line = line_content(patch.text@, i as nat);
        if is_source(patch.lines@[i].kind) {
            if line.len() > 0 && utf8_width(line[0]) == 1 {
                Some(line.skip(1))
            } else {
                None
            }
        } else {
            Some(line)
        }
    } else {
        None
    }
}

/// How many of the clusters from the `k`th on end at or before a byte.
pub open spec fn clusters_to_byte(parts: Seq<Seq<char>>, k: int, byte: int) -> int
    decreases parts.len() - k,
{
    if 0 <= k < parts.len() && cluster_bytes(parts, k + 1) <= byte {
        clusters_to_byte(parts, k + 1, byte)
    } else {
        k
    }
}

/// The column of the source that a column of a part of a row shows.
pub open spec fn source_col(r: Review, cell: ReviewCell, col: int, tab_width: int) -> int {
    match body_of(r.patch, cell.patch_line as int) {
        None => 0,
        Some(body) => {
            let glyphs = glyphs_of(body, tab_width, r.layout is Split);
            if cell.text_len == 0 || glyphs.len() == 0 {
                0
            } else {
                let behind = if col > cell.text_col {
                    col - cell.text_col
                } else {
                    0
                };
                let offset = if behind < cell.text_len {
                    behind
                } else {
                    cell.text_len - 1
                };
                let index = if cell.src_glyph + offset < glyphs.len() {
                    cell.src_glyph + offset
                } else {
                    glyphs.len() - 1
                };
                clusters_to_byte(graphemes_of(body), 0, glyphs[index].src)
            }
        },
    }
}

impl Review {
    /// The file and the line that a line of the review leads to.
    pub open spec fn target(self, line: int) -> Option<(usize, usize)> {
        match info_at(self.page.rows, line) {
            Some(info) => target_at(self.page.rows, line, info),
            None => None,
        }
    }

    /// The place of the source that a line of the review shows.
    pub open spec fn place(self, line: int, text: Option<Seq<char>>) -> Option<Place> {
        let target = match self.target(line) {
            Some(t) => Some(t),
            None => match stat_file(self.page.stat_rows, 0, line) {
                Some(file) => Some((file, 1usize)),
                None => None,
            },
        };
        match target {
            Some((file, n)) if file < self.patch.files@.len() => Some(
                Place {
                    path: self.patch.files@[file as int].path@,
                    line: n,
                    text: if info_at(self.page.rows, line) is Some {
                        text
                    } else {
                        None
                    },
                },
            ),
            _ => None,
        }
    }

    /// The line of the review that shows a place: the line of the patch with
    /// the same text nearest to it, else the first line at or behind it, else
    /// the start of its file.
    pub open spec fn line_of(self, place: Place) -> Option<usize> {
        match file_index(self.patch.files@, 0, place.path) {
            None => None,
            Some(file) => {
                let n = self.page.rows.len() as int;
                let same = match place.text {
                    Some(text) => nearest_row(
                        self.page.rows,
                        self.page.lines,
                        file,
                        text,
                        place.line,
                        n,
                    ),
                    None => None,
                };
                let behind = next_row(self.page.rows, file, place.line, n);
                if same is Some {
                    Some((same->0).0 as usize)
                } else if behind is Some {
                    Some((behind->0).0 as usize)
                } else if file < self.page.file_lines.len() {
                    Some(self.page.file_lines[file])
                } else {
                    None
                }
            },
        }
    }
}

/// A rendering shows a patch in a layout, at a width.
pub open spec fn draws(
    page: Drawn,
    text: Seq<char>,
    patch: ReviewPatch,
    code: PatchHighlights,
    layout: DiffLayout,
    width: int,
    unsaved: nat,
    tab_width: int,
) -> bool {
    let body = review_body(patch, code, layout, width, unsaved, tab_width);
    &&& text == doc_text(body.doc, body.doc.len() as int)
    &&& page.rows == body.doc.map_values(|l: DocLine| l.row)
    &&& page.marks == body.doc.map_values(|l: DocLine| l.spans)
    &&& page.stat_rows == stat_rows_of(patch, unsaved)
    &&& page.hunks == body.hunks
    &&& page.file_lines == with_fallback(body.files, at_least(body.doc.len() - 1, 0))
    &&& is_nav(page.file_nav, page.file_lines)
    &&& is_toolbar(page.toolbar, header_doc(patch, unsaved).len() as int + 1, layout)
    &&& page.lines == Seq::new(text_line_count(text), |n: int| text_line(text, n as nat))
}

/// A rendering shows the patch of a review with its language highlights.
pub open spec fn is_drawn(page: Drawn, text: Seq<char>, r: Review, unsaved: nat, tab_width: int) -> bool {
    exists|code: PatchHighlights|
        code.model() == r.code && #[trigger] draws(
            page,
            text,
            r.patch,
            code,
            r.layout,
            r.width as int,
            unsaved,
            tab_width,
        )
}

proof fn drawn_with(
    page: Drawn,
    text: Seq<char>,
    r: Review,
    code: PatchHighlights,
    unsaved: nat,
    tab_width: int,
)
    requires
        code.model() == r.code,
        draws(page, text, r.patch, code, r.layout, r.width as int, unsaved, tab_width),
    ensures
        is_drawn(page, text, r, unsaved, tab_width),
{
}

/// The same lines, each once and in order.
pub open spec fn is_nav(nav: Seq<usize>, lines: Seq<usize>) -> bool {
    &&& forall|i: int, j: int| 0 <= i < j < nav.len() ==> nav[i] < nav[j]
    &&& forall|x: usize| nav.contains(x) <==> lines.contains(x)
}

impl DiffReviewState {
    pub open spec fn model(self) -> Review {
        Review {
            buffer_id: self.buffer_id,
            origin_buffer_id: self.origin_buffer_id,
            origin_tab: self.origin_tab,
            spec: opt_view(self.explicit_spec),
            layout: self.layout,
            patch: self.patch,
            width: self.layout_width,
            area_width: self.layout_area_width,
            code: line_marks(self.code@),
            page: Drawn {
                rows: self.rows@,
                stat_rows: self.stat_rows@,
                hunks: self.hunk_lines@,
                file_lines: self.file_lines@,
                file_nav: self.file_nav@,
                toolbar: self.toolbar,
                lines: views(self.text_lines@),
                marks: line_marks(self.highlights@),
            },
        }
    }

    pub fn root(&self) -> (s: &str)
        ensures
            s@ == self.model().patch.root@,
    {
        self.patch.root.as_str()
    }

    pub fn base(&self) -> (b: &ReviewBase)
        ensures
            *b == self.model().patch.base,
    {
        &self.patch.base
    }

    fn row(&self, line: usize) -> (res: Option<ReviewRow>)
        ensures
            res == if line < self.model().page.rows.len() {
                Some(self.model().page.rows[line as int])
            } else {
                None
            },
    {
        if line < self.rows.len() {
            Some(self.rows[line])
        } else {
            None
        }
    }

    /// The file of a row of the summary.
    pub fn file_for_stat_row(&self, line: usize) -> (res: Option<usize>)
        ensures
            res == stat_file(self.model().page.stat_rows, 0, line as int),
    {
        let mut k: usize = 0;
        while k < self.stat_rows.len()
            invariant
                k <= self.stat_rows.len(),
                stat_file(self.stat_rows@, k as int, line as int) == stat_file(
                    self.stat_rows@,
                    0,
                    line as int,
                ),
            decreases self.stat_rows.len() - k,
        {
            let (row, file) = self.stat_rows[k];
            if row == line {
                return Some(file);
            }
            k += 1;
        }
        None
    }

    fn info(&self, line: usize) -> (res: Option<PatchLine>)
        ensures
            res == info_at(self.model().page.rows, line as int),
    {
        match self.row(line) {
            Some(row) => row.info(),
            None => None,
        }
    }

    /// The file and the line, from one on, that a line of the review leads to.
    pub fn source_target(&self, line: usize) -> (res: Option<(usize, usize)>)
        ensures
            res == self.model().target(line as int),
    {
        match self.info(line) {
            Some(info) => self.cell_target(line, info),
            None => None,
        }
    }

    /// The file and the line, from one on, that a part of a row leads to.
    pub fn cell_target(&self, line: usize, info: PatchLine) -> (res: Option<(usize, usize)>)
        ensures
            res == target_at(self.model().page.rows, line as int, info),
    {
        let file: usize = match info.file {
            Some(file) => file,
            None => {
                return None;
            },
        };
        if let Some(n) = info.new_line {
            return Some((file, n));
        }
        let ghost rows = self.rows@;
        let count: usize = self.rows.len();
        let mut k: usize = line.saturating_add(1);
        proof {
            if line == usize::MAX {
                assert(hunk_below(rows, k as int, file) is None);
                assert(hunk_below(rows, line + 1, file) is None);
            }
        }
        let mut found: Option<PatchLine> = None;
        let mut open = true;
        while open && k < self.rows.len()
            invariant
                rows == self.rows@,
                open ==> found is None && hunk_below(rows, k as int, file) == hunk_below(
                    rows,
                    line + 1,
                    file,
                ),
                !open ==> found == hunk_below(rows, line + 1, file),
            decreases (self.rows.len() - k) + (if open { 1int } else { 0int }),
        {
            match self.rows[k].info() {
                None => {
                    open = false;
                },
                Some(p) => {
                    let here = match p.file {
                        Some(f) => f == file,
                        None => false,
                    };
                    if here && p.kind == PatchLineKind::HunkHeader {
                        found = Some(p);
                        open = false;
                    } else {
                        k += 1;
                    }
                },
            }
        }
        let n: usize = match found {
            Some(p) => match p.new_line {
                Some(n) => n,
                None => 1,
            },
            None => 1,
        };
        Some((file, n))
    }

    /// The place of the source that a line of the review shows.
    pub fn anchor(&self, line: usize, text: Option<String>) -> (res: Option<Anchor>)
        ensures
            match (res, self.model().place(line as int, opt_view(text))) {
                (Some(a), Some(p)) => a.model() == p,
                (None, None) => true,
                _ => false,
            },
    {
        let target = match self.source_target(line) {
            Some(t) => Some(t),
            None => match self.file_for_stat_row(line) {
                Some(file) => Some((file, 1)),
                None => None,
            },
        };
        match target {
            Some((file, new_line)) => {
                if file >= self.patch.files.len() {
                    return None;
                }
                let path = self.patch.files[file].path.clone();
                let text = if self.info(line).is_some() {
                    text
                } else {
                    None
                };
                Some(Anchor { path, new_line, text })
            },
            None => None,
        }
    }

    fn find_file(&self, path: &str) -> (res: Option<usize>)
        ensures
            match res {
                Some(k) => file_index(self.patch.files@, 0, path@) == Some(k as int) && k
                    < self.patch.files.len(),
                None => file_index(self.patch.files@, 0, path@) is None,
            },
    {
        let mut k: usize = 0;
        while k < self.patch.files.len()
            invariant
                k <= self.patch.files.len(),
                file_index(self.patch.files@, k as int, path@) == file_index(
                    self.patch.files@,
                    0,
                    path@,
                ),
            decreases self.patch.files.len() - k,
        {
            if same_text(self.patch.files[k].path.as_str(), path) {
                return Some(k);
            }
            k += 1;
        }
        None
    }

    fn line_shown(&self, k: usize, file: usize) -> (res: Option<usize>)
        ensures
            res == shown_line(self.rows@, k as int, file as int),
    {
        match self.info(k) {
            Some(p) => {
                let here = match p.file {
                    Some(f) => f == file,
                    None => false,
                };
                if here && p.kind != PatchLineKind::FileHeader {
                    p.new_line
                } else {
                    None
                }
            },
            None => None,
        }
    }

    fn nearest(&self, file: usize, text: &str, line: usize) -> (res: Option<usize>)
        ensures
            ({
                let best = nearest_row(
                    self.rows@,
                    views(self.text_lines@),
                    file as int,
                    text@,
                    line,
                    self.rows.len() as int,
                );
                match res {
                    Some(k) => best is Some && (best->0).0 == k,
                    None => best is None,
                }
            }),
    {
        let ghost lines = views(self.text_lines@);
        let mut best: Option<(usize, usize)> = None;
        let mut k: usize = 0;
        while k < self.rows.len()
            invariant
                k <= self.rows.len(),
                lines == views(self.text_lines@),
                match (best, nearest_row(self.rows@, lines, file as int, text@, line, k as int)) {
                    (Some(a), Some(b)) => a.0 == b.0 && a.1 == b.1,
                    (None, None) => true,
                    _ => false,
                },
            decreases self.rows.len() - k,
        {
            if let Some(n) = self.line_shown(k, file) {
                if k < self.text_lines.len() && same_text(self.text_lines[k].as_str(), text) {
                    let closer = match best {
                        None => true,
                        Some((_, m)) => distance(n, line) < distance(m, line),
                    };
                    if closer {
                        best = Some((k, n));
                    }
                }
            }
            k += 1;
        }
        match best {
            Some((k, _)) => Some(k),
            None => None,
        }
    }

    fn behind(&self, file: usize, line: usize) -> (res: Option<usize>)
        ensures
            ({
                let best = next_row(self.rows@, file as int, line, self.rows.len() as int);
                match res {
                    Some(k) => best is Some && (best->0).0 == k,
                    None => best is None,
                }
            }),
    {
        let mut best: Option<(usize, usize)> = None;
        let mut k: usize = 0;
        while k < self.rows.len()
            invariant
                k <= self.rows.len(),
                match (best, next_row(self.rows@, file as int, line, k as int)) {
                    (Some(a), Some(b)) => a.0 == b.0 && a.1 == b.1,
                    (None, None) => true,
                    _ => false,
                },
            decreases self.rows.len() - k,
        {
            if let Some(n) = self.line_shown(k, file) {
                let better = match best {
                    None => true,
                    Some((_, m)) => n < m,
                };
                if n >= line && better {
                    best = Some((k, n));
                }
            }
            k += 1;
        }
        match best {
            Some((k, _)) => Some(k),
            None => None,
        }
    }

    /// The line of the review that shows a place of the source.
    pub fn line_for_anchor(&self, anchor: &Anchor) -> (res: Option<usize>)
        ensures
            res == self.model().line_of(anchor.model()),
    {
        let file: usize = match self.find_file(anchor.path.as_str()) {
            Some(file) => file,
            None => {
                return None;
            },
        };
        if let Some(text) = &anchor.text {
            if let Some(line) = self.nearest(file, text.as_str(), anchor.new_line) {
                return Some(line);
            }
        }
        if let Some(line) = self.behind(file, anchor.new_line) {
            return Some(line);
        }
        if file < self.file_lines.len() {
            Some(self.file_lines[file])
        } else {
            None
        }
    }

    /// The text of a line of the review.
    pub fn line_text(&self, line: usize) -> (res: Option<&str>)
        ensures
            match res {
                Some(s) => line < self.model().page.lines.len() && s@
                    == self.model().page.lines[line as int],
                None => line >= self.model().page.lines.len(),
            },
    {
        if line < self.text_lines.len() {
            Some(self.text_lines[line].as_str())
        } else {
            None
        }
    }

    /// The byte ranges of a line to tint, and whether each was added.
    pub fn line_tints(&self, line: usize) -> (out: Vec<(Range<usize>, bool)>)
        ensures
            tint_models(out@) == tints_at(self.model().page.rows, line as int),
    {
        match self.row(line) {
            Some(row) => row.tints(),
            None => {
                let out: Vec<(Range<usize>, bool)> = Vec::new();
                proof {
                    assert(tint_models(out@) =~= Seq::empty());
                }
                out
            },
        }
    }

    /// Whether a line's tint goes to its end, and then whether it was added.
    pub fn line_trailing_tint(&self, line: usize) -> (res: Option<bool>)
        ensures
            res == trailing_tint(self.model(), line as int),
    {
        let length: usize = match self.line_text(line) {
            Some(text) => byte_len(text),
            None => {
                return None;
            },
        };
        if length == 0 {
            return None;
        }
        let tints = self.line_tints(line);
        let ghost all = tint_models(tints@);
        let mut k: usize = 0;
        while k < tints.len()
            invariant
                k <= tints.len(),
                all == tint_models(tints@),
                all == tints_at(self.model().page.rows, line as int),
                line < self.model().page.lines.len(),
                0 < length == byte_count(self.model().page.lines[line as int]),
                tint_reaching(all, k as int, length as int) == tint_reaching(
                    all,
                    0,
                    length as int,
                ),
            decreases tints.len() - k,
        {
            proof {
                assert(all[k as int] == (tints@[k as int].0.start, tints@[k as int].0.end,
                    tints@[k as int].1));
            }
            if tints[k].0.end >= length {
                return Some(tints[k].1);
            }
            k += 1;
        }
        None
    }

    /// The text of a patch line without its marker column.
    fn patch_body(&self, patch_line: usize) -> (res: Option<String>)
        ensures
            match (res, body_of(self.patch, patch_line as int)) {
                (Some(s), Some(b)) => s@ == b,
                (None, None) => true,
                _ => false,
            },
    {
        let ranges = patch_line_ranges(&self.patch);
        if patch_line >= ranges.len() || patch_line >= self.patch.lines.len() {
            return None;
        }
        let (start, end) = ranges[patch_line];
        let cs = chars_of(self.patch.text.as_str());
        proof {
            crate::lines::line_start_is(self.patch.text@, patch_line as nat);
        }
        let line = slice_string(&cs, start, end);
        match self.patch.lines[patch_line].kind {
            PatchLineKind::Added | PatchLineKind::Removed | PatchLineKind::Context => {
                if start == end || char_bytes(cs[start]) != 1 {
                    return None;
                }
                let body = slice_string(&cs, start + 1, end);
                proof {
                    assert(body@ =~= line@.skip(1));
                }
                Some(body)
            },
            _ => Some(line),
        }
    }

    /// The column of the source that a column of a part of a row shows.
    pub fn source_column(&self, cell: &ReviewCell, col: usize, tab_width: usize) -> (c: usize)
        ensures
            c == source_col(self.model(), *cell, col as int, tab_width as int),
    {
        let body = match self.patch_body(cell.patch_line) {
            Some(body) => body,
            None => {
                return 0;
            },
        };
        if cell.text_len == 0 {
            return 0;
        }
        let glyphs = layout_body(body.as_str(), tab_width, self.layout == DiffLayout::Split);
        let ghost all = glyph_models(glyphs@);
        if glyphs.len() == 0 {
            return 0;
        }
        let behind: usize = col.saturating_sub(cell.text_col);
        let offset: usize = if behind < cell.text_len {
            behind
        } else {
            cell.text_len - 1
        };
        let at: usize = cell.src_glyph.saturating_add(offset);
        let index: usize = if at < glyphs.len() {
            at
        } else {
            glyphs.len() - 1
        };
        proof {
            assert(all[index as int].src == glyphs@[index as int].src_byte);
        }
        grapheme_index_for_byte(body.as_str(), glyphs[index].src_byte)
    }

    /// Takes a rendering of the patch.
    pub fn apply_rendered(&mut self, rendered: Rendered)
        ensures
            final(self).model() == (Review { page: final(self).model().page, ..old(self).model() }),
            shows_rendered(final(self).model().page, rendered),
    {
        let ghost given = rendered;
        let lines = crate::fmt::text_lines(rendered.text.as_str());
        let nav = nav_lines(&rendered.file_lines);
        self.rows = rendered.rows;
        self.stat_rows = rendered.stat_rows;
        self.hunk_lines = rendered.hunk_lines;
        self.file_nav = nav;
        self.file_lines = rendered.file_lines;
        self.toolbar = rendered.toolbar;
        self.text_lines = lines;
        self.highlights = rendered.highlights;
        proof {
            assert(views(self.text_lines@) =~= Seq::new(
                text_line_count(given.text@),
                |n: int| text_line(given.text@, n as nat),
            ));
        }
    }
}

impl DiffReviewState {
    /// Renders the patch; the text and the name of its buffer, and the line
    /// that shows a place of the source.
    pub fn redraw(&mut self, unsaved: usize, tab_width: usize, anchor: &Option<Anchor>) -> (res: (
        String,
        String,
        Option<usize>,
    ))
        ensures
            ({
                let r = old(self).model();
                let after = final(self).model();
                &&& after == Review { page: after.page, ..r }
                &&& is_drawn(after.page, res.0@, r, unsaved as nat, tab_width as int)
                &&& res.1@ == DIFF_REVIEW_TITLE_PREFIX@ + r.patch.head@ + " → "@
                    + r.patch.base.name@
                &&& res.2 == match anchor {
                    Some(a) => after.line_of(a.model()),
                    None => None,
                }
            }),
    {
        let ghost r = self.model();
        let code = PatchHighlights::from_lines(copy_lines(&self.code));
        proof {
            assert(code.model() == r.code);
        }
        let rendered = render(
            &self.patch,
            code,
            self.layout,
            self.layout_width as usize,
            unsaved,
            tab_width,
        );
        let text = rendered.text.clone();
        let title = rendered.title.clone();
        self.apply_rendered(rendered);
        proof {
            drawn_with(self.model().page, text@, r, code, unsaved as nat, tab_width as int);
        }
        let line = match anchor {
            Some(anchor) => self.line_for_anchor(anchor),
            None => None,
        };
        (text, title, line)
    }
}

/// A page is what a rendering shows.
pub open spec fn shows_rendered(page: Drawn, r: Rendered) -> bool {
    &&& page.rows == r.rows@
    &&& page.stat_rows == r.stat_rows@
    &&& page.hunks == r.hunk_lines@
    &&& page.file_lines == r.file_lines@
    &&& is_nav(page.file_nav, r.file_lines@)
    &&& page.toolbar == r.toolbar
    &&& page.lines == Seq::new(text_line_count(r.text@), |n: int| text_line(r.text@, n as nat))
    &&& page.marks == line_marks(r.highlights@)
}

pub open spec fn tint_models(list: Seq<(Range<usize>, bool)>) -> Seq<(usize, usize, bool)> {
    list.map_values(|t: (Range<usize>, bool)| (t.0.start, t.0.end, t.1))
}

pub open spec fn tints_at(rows: Seq<ReviewRow>, line: int) -> Seq<(usize, usize, bool)> {
    if 0 <= line < rows.len() {
        tint_of(rows[line].left) + tint_of(rows[line].right)
    } else {
        Seq::empty()
    }
}

/// Whether the first tint, from the `k`th on, that reaches an end was added.
pub open spec fn tint_reaching(tints: Seq<(usize, usize, bool)>, k: int, end: int) -> Option<bool>
    decreases tints.len() - k,
{
    if k < 0 || k >= tints.len() {
        None
    } else if tints[k].1 >= end {
        Some(tints[k].2)
    } else {
        tint_reaching(tints, k + 1, end)
    }
}

pub open spec fn trailing_tint(r: Review, line: int) -> Option<bool> {
    if 0 <= line < r.page.lines.len() && byte_count(r.page.lines[line]) > 0 {
        tint_reaching(tints_at(r.page.rows, line), 0, byte_count(r.page.lines[line]) as int)
    } else {
        None
    }
}

fn distance(a: usize, b: usize) -> (d: usize)
    ensures
        d == apart(a, b),
{
    if a < b {
        b - a
    } else {
        a - b
    }
}

/// How many clusters of a text end at or before a byte.
pub fn grapheme_index_for_byte(text: &str, byte: usize) -> (n: usize)
    ensures
        n == clusters_to_byte(graphemes_of(text@), 0, byte as int),
{
    let parts = graphemes(text);
    let ghost v = views(parts@);
    let mut at: usize = 0;
    let mut k: usize = 0;
    while k < parts.len()
        invariant
            k <= parts.len(),
            v == views(parts@),
            v == graphemes_of(text@),
            at == cluster_bytes(v, k as int),
            clusters_to_byte(v, k as int, byte as int) == clusters_to_byte(v, 0, byte as int),
        decreases parts.len() - k,
    {
        proof {
            assert(v[k as int] == parts@[k as int]@);
        }
        let next: usize = at.saturating_add(byte_len(parts[k].as_str()));
        if next > byte {
            return k;
        }
        at = next;
        k += 1;
    }
    k
}

/// Where each line of a text starts and ends.
pub open spec fn are_ranges(ranges: Seq<(usize, usize)>, t: Seq<char>) -> bool {
    &&& ranges.len() == text_line_count(t)
    &&& forall|n: int|
        0 <= n < ranges.len() ==> (#[trigger] ranges[n]).0 == line_start(t, n as nat) && ranges[n].1
            == content_end(t, n as nat)
}

/// Where each line of a patch's text starts and ends, in characters.
pub fn patch_line_ranges(patch: &ReviewPatch) -> (out: Vec<(usize, usize)>)
    ensures
        are_ranges(out@, patch.text@),
{
    let cs = chars_of(patch.text.as_str());
    let ghost t = patch.text@;
    let mut out: Vec<(usize, usize)> = Vec::new();
    let mut start: usize = 0;
    proof {
        if t.len() > 0 {
            last_line(t, 0, 0);
        }
    }
    while start < cs.len()
        invariant
            cs@ == t,
            start <= cs.len(),
            out.len() <= start,
            start < cs.len() ==> start == line_start(t, out.len() as nat),
            start < cs.len() ==> text_line_count(t) == out.len() + lines_left(t, start as int),
            start == cs.len() ==> text_line_count(t) == out.len(),
            forall|n: int|
                0 <= n < out.len() ==> (#[trigger] out@[n]).0 == line_start(t, n as nat)
                    && out@[n].1 == content_end(t, n as nat),
        decreases cs.len() - start,
    {
        let mut end: usize = start;
        while end < cs.len() && cs[end] != '\n'
            invariant
                cs@ == t,
                start <= end <= cs.len(),
                line_break_from(t, end as int) == line_break_from(t, start as int),
            decreases cs.len() - end,
        {
            end += 1;
        }
        let ghost n = out.len() as nat;
        proof {
            line_break_is(t, start as int);
            last_line(t, n, start as int);
        }
        out.push((start, end));
        if end < cs.len() {
            start = end + 1;
        } else {
            start = end;
        }
    }
    out
}

/// The first line, from the `k`th on, behind another.
pub open spec fn first_behind(lines: Seq<usize>, line: int, k: int) -> Option<usize>
    decreases lines.len() - k,
{
    if k < 0 || k >= lines.len() {
        None
    } else if lines[k] > line {
        Some(lines[k])
    } else {
        first_behind(lines, line, k + 1)
    }
}

/// The last of the first `k` lines that is before another.
pub open spec fn last_before(lines: Seq<usize>, line: int, k: int) -> Option<usize>
    decreases k,
{
    if k <= 0 || k > lines.len() {
        None
    } else if lines[k - 1] < line {
        Some(lines[k - 1])
    } else {
        last_before(lines, line, k - 1)
    }
}

pub open spec fn next_of(lines: Seq<usize>, line: int, forward: bool) -> Option<usize> {
    if forward {
        first_behind(lines, line, 0)
    } else {
        last_before(lines, line, lines.len() as int)
    }
}

/// The next line in a direction.
pub fn next_in(lines: &Vec<usize>, cursor_line: usize, forward: bool) -> (res: Option<usize>)
    ensures
        res == next_of(lines@, cursor_line as int, forward),
{
    if forward {
        let mut k: usize = 0;
        while k < lines.len()
            invariant
                k <= lines.len(),
                forward,
                first_behind(lines@, cursor_line as int, k as int) == first_behind(
                    lines@,
                    cursor_line as int,
                    0,
                ),
            decreases lines.len() - k,
        {
            if lines[k] > cursor_line {
                return Some(lines[k]);
            }
            k += 1;
        }
        None
    } else {
        let mut k: usize = lines.len();
        while k > 0
            invariant
                k <= lines.len(),
                !forward,
                last_before(lines@, cursor_line as int, k as int) == last_before(
                    lines@,
                    cursor_line as int,
                    lines.len() as int,
                ),
            decreases k,
        {
            if lines[k - 1] < cursor_line {
                return Some(lines[k - 1]);
            }
            k -= 1;
        }
        None
    }
}

/// In lines that are in order, the next line forward is the least behind the
/// cursor, and the next line backward the greatest before it.
pub proof fn next_is_adjacent(lines: Seq<usize>, line: int, x: usize)
    requires
        forall|i: int, j: int| 0 <= i < j < lines.len() ==> lines[i] < lines[j],
        lines.contains(x),
    ensures
        x > line ==> next_of(lines, line, true) is Some && line < next_of(lines, line, true)->0
            <= x,
        x < line ==> next_of(lines, line, false) is Some && x <= next_of(lines, line, false)->0
            < line,
{
    let i = choose|i: int| 0 <= i < lines.len() && lines[i] == x;
    if x > line {
        reaches_forward(lines, line, 0, i);
    }
    if x < line {
        reaches_backward(lines, line, lines.len() as int, i);
    }
}

proof fn reaches_forward(lines: Seq<usize>, line: int, k: int, i: int)
    requires
        0 <= k <= i < lines.len(),
        lines[i] > line,
        forall|i: int, j: int| 0 <= i < j < lines.len() ==> lines[i] < lines[j],
    ensures
        first_behind(lines, line, k) is Some,
        line < first_behind(lines, line, k)->0 <= lines[i],
    decreases i - k,
{
    if lines[k] <= line {
        reaches_forward(lines, line, k + 1, i);
    }
}

proof fn reaches_backward(lines: Seq<usize>, line: int, k: int, i: int)
    requires
        0 <= i < k <= lines.len(),
        lines[i] < line,
        forall|i: int, j: int| 0 <= i < j < lines.len() ==> lines[i] < lines[j],
    ensures
        last_before(lines, line, k) is Some,
        lines[i] <= last_before(lines, line, k)->0 < line,
    decreases k,
{
    if lines[k - 1] >= line {
        reaches_backward(lines, line, k - 1, i);
    }
}

/// The same lines, each once and in order.
fn nav_lines(lines: &Vec<usize>) -> (nav: Vec<usize>)
    ensures
        is_nav(nav@, lines@),
{
    let mut nav: Vec<usize> = Vec::new();
    let mut k: usize = 0;
    while k < lines.len()
        invariant
            k <= lines.len(),
            is_nav(nav@, lines@.take(k as int)),
        decreases lines.len() - k,
    {
        let x: usize = lines[k];
        let ghost before = nav@;
        let ghost seen = lines@.take(k as int);
        let mut at: usize = nav.len();
        while at > 0 && nav[at - 1] > x
            invariant
                at <= nav.len(),
                nav@ == before,
                forall|i: int| at <= i < nav.len() ==> (#[trigger] nav@[i]) > x,
            decreases at,
        {
            at -= 1;
        }
        let known = at > 0 && nav[at - 1] == x;
        if !known {
            nav.insert(at, x);
        }
        proof {
            assert(lines@.take(k + 1) =~= seen.push(x));
            assert forall|y: usize| nav@.contains(y) <==> seen.push(x).contains(y) by {
                if nav@.contains(y) {
                    let i = choose|i: int| 0 <= i < nav@.len() && nav@[i] == y;
                    if y != x {
                        if known || i < at {
                            assert(before[i] == y);
                        } else {
                            assert(before[i - 1] == y);
                        }
                        assert(before.contains(y));
                        assert(seen.contains(y));
                        let j = choose|j: int| 0 <= j < seen.len() && seen[j] == y;
                        assert(seen.push(x)[j] == y);
                    } else {
                        assert(seen.push(x)[seen.len() as int] == y);
                    }
                }
                if seen.push(x).contains(y) {
                    let j = choose|j: int| 0 <= j < seen.push(x).len() && seen.push(x)[j] == y;
                    if j == seen.len() {
                        if known {
                            assert(nav@[at - 1] == y);
                        } else {
                            assert(nav@[at as int] == y);
                        }
                    } else {
                        assert(seen[j] == y);
                        assert(seen.contains(y));
                        assert(before.contains(y));
                        let i = choose|i: int| 0 <= i < before.len() && before[i] == y;
                        if known || i < at {
                            assert(nav@[i] == y);
                        } else {
                            assert(nav@[i + 1] == y);
                        }
                    }
                }
            }
        }
        k += 1;
    }
    proof {
        assert(lines@.take(k as int) =~= lines@);
    }
    nav
}

} // verus!
