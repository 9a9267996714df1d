//! The branch review in the editor: opening, refreshing, laying out and
//! leaving it, and going from it to the source.
use crate::buffer::{validated, Buf, Buffer};
use crate::diff_review::highlight::PatchHighlights;
use crate::diff_review::render::{
    button_at, summary_message, summary_text, trim_text, DiffLayout, ReviewCell, Toolbar,
    DEFAULT_LAYOUT_WIDTH, DIFF_REVIEW_TITLE_PREFIX,
};
use crate::diff_review::{
    is_drawn, next_in, next_of, source_col, stat_file, target_at, Anchor, DiffReviewState, Drawn,
    PendingGitFetch, Place, Review,
};
use crate::editor::buffer_manager::{added, files_move};
use crate::editor::clipboard::ClipboardBackend;
use crate::editor::register::RegisterManager;
use crate::editor::tab_manager::{is_blank, is_diff_buffer, restored_files};
use crate::editor::ui_panels::{ToastLevel, Ui};
use crate::editor::{buf_models, Ed, Editor};
use crate::fmt::{copy_option, decimal, digits, opt_view};
use crate::native_diff::{ReviewBase, ReviewPatch};
use crate::paths::{join_path, joined_path, parent_of, parent_path};
use crate::text::same_text;
use crate::unicode::GraphemeCol;
use vstd::prelude::*;

verus! {

/// A comparison that was just made, with its language highlights.
#[derive(Debug)]
pub struct FreshReview {
    pub patch: ReviewPatch,
    pub code: PatchHighlights,
}

/// A place of the source that the review leads to.
#[derive(Debug)]
pub struct ReviewTarget {
    pub root: String,
    pub path: String,
    /// From one on
    pub line: usize,
    pub col: usize,
}

/// How a fetch went.
#[derive(Debug)]
pub enum FetchOutcome {
    /// It still runs.
    Running,
    Done,
    Failed(String),
    /// It ended without saying how.
    Lost,
}

/// The index of the buffer that shows the review.
pub open spec fn review_index(e: Ed) -> Option<int> {
    match e.ui.review {
        Some(r) => e.index_by_id(r.buffer_id, 0),
        None => None,
    }
}

/// The review is shown.
pub open spec fn on_review(e: Ed) -> bool {
    e.ui.review is Some && (e.ui.review->0).buffer_id == e.cur().id
}

/// How many of the first `k` buffers have a file and unsaved changes.
pub open spec fn unsaved_files(bufs: Seq<Buf>, k: int) -> nat
    decreases k,
{
    if k <= 0 || k > bufs.len() {
        0
    } else {
        unsaved_files(bufs, k - 1) + if bufs[k - 1].modified && bufs[k - 1].path is Some {
            1nat
        } else {
            0nat
        }
    }
}

pub open spec fn tab_cells(e: Ed) -> int {
    e.indent().norm().tab_width as int
}

/// The widths of the area and of the text that the review is laid out for.
/// The text stops one column short, so that no full row wraps.
pub open spec fn review_widths(e: Ed) -> (u16, u16) {
    let (area, text, gutter) = e.ui.widths;
    match area {
        None => (0, DEFAULT_LAYOUT_WIDTH as u16),
        Some(area) => {
            let text = if text > 0 {
                text as int
            } else if area > gutter {
                area - gutter
            } else {
                0
            };
            (
                area,
                if text - 1 > 20 {
                    (text - 1) as u16
                } else {
                    20
                },
            )
        },
    }
}

pub open spec fn review_title(patch: ReviewPatch) -> Seq<char> {
    DIFF_REVIEW_TITLE_PREFIX@ + patch.head@ + " → "@ + patch.base.name@
}

/// A buffer with the cursor on a line, where one is given; of the current
/// buffer it is put inside the text.
pub open spec fn settled(b: Buf, after: Buf, line: Option<usize>, shown: bool) -> bool {
    exists|m: Buf| #[trigger]
        placed(b, m, line) && if shown {
            validated(m, after)
        } else {
            after == m
        }
}

pub open spec fn placed(b: Buf, after: Buf, line: Option<usize>) -> bool {
    match line {
        Some(line) => b.moved(after, line as int, 0),
        None => after == b,
    }
}

/// The review's buffer shows the review's patch again, its cursor at a place
/// of the source.
pub open spec fn rerendered(e: Ed, f: Ed, place: Option<Place>) -> bool {
    match review_index(e) {
        None => f == e,
        Some(i) => exists|page: Drawn, text: Seq<char>| #[trigger]
            redrawn(e, f, place, i, page, text),
    }
}

pub open spec fn redrawn(
    e: Ed,
    f: Ed,
    place: Option<Place>,
    i: int,
    page: Drawn,
    text: Seq<char>,
) -> bool {
    let r = e.ui.review->0;
    let shown = Review { page, ..r };
    let line = match place {
        Some(p) => shown.line_of(p),
        None => None,
    };
    &&& is_drawn(page, text, r, unsaved_files(e.bufs, e.bufs.len() as int), tab_cells(e))
    &&& settled(
        Buf { name: Some(review_title(r.patch)), ..e.bufs[i].replaced(text) },
        f.bufs[i],
        line,
        i == e.current,
    )
    &&& f == Ed {
        bufs: e.bufs.update(i, f.bufs[i]),
        ui: Ui {
            review: Some(shown),
            dirty: true,
            center: e.ui.center || i == e.current,
            ..e.ui
        },
        ..e
    }
}

/// The place of the source at the cursor of the review.
pub open spec fn cursor_place(e: Ed, match_text: bool) -> Option<Place> {
    match (review_index(e), e.ui.review) {
        (Some(i), Some(r)) => {
            let line = e.bufs[i].line();
            r.place(
                line,
                if match_text && 0 <= line < r.page.lines.len() {
                    Some(r.page.lines[line])
                } else {
                    None
                },
            )
        },
        _ => None,
    }
}

pub open spec fn anchor_place(anchor: Option<Anchor>) -> Option<Place> {
    match anchor {
        Some(a) => Some(a.model()),
        None => None,
    }
}

pub open spec fn with_status(e: Ed, text: Seq<char>) -> Ed {
    Ed { ui: Ui { status: text, ..e.ui }, ..e }
}

pub open spec fn with_toast(e: Ed, level: ToastLevel, text: Seq<char>) -> Ed {
    Ed { ui: Ui { toasts: e.ui.toasts.push((level, text)), ..e.ui }, ..e }
}

pub open spec fn with_review(e: Ed, r: Review) -> Ed {
    Ed { ui: Ui { review: Some(r), ..e.ui }, ..e }
}

/// The review has another comparison.
pub open spec fn with_comparison(e: Ed, fresh: FreshReview) -> Ed {
    with_review(
        e,
        Review { patch: fresh.patch, code: fresh.code.model(), ..e.ui.review->0 },
    )
}

/// The review, and those opened later, have another layout.
pub open spec fn with_layout(e: Ed, layout: DiffLayout) -> Ed {
    with_review(
        Ed { ui: Ui { layout, ..e.ui }, ..e },
        Review { layout, ..e.ui.review->0 },
    )
}

/// The review is laid out for the widths that there are.
pub open spec fn with_widths(e: Ed) -> Ed {
    with_review(
        e,
        Review {
            width: review_widths(e).1,
            area_width: review_widths(e).0,
            ..e.ui.review->0
        },
    )
}

/// The review took another comparison, or said why there is none.
pub open spec fn review_refreshed(e: Ed, f: Ed, fresh: Result<FreshReview, String>) -> bool {
    if review_index(e) is None {
        f == e
    } else {
        match fresh {
            Err(error) => f == with_toast(e, ToastLevel::Error, "Diff review: "@ + error@),
            Ok(fresh) => exists|g: Ed| #[trigger]
                rerendered(with_comparison(e, fresh), g, cursor_place(e, true)) && f == with_status(g, summary_text(fresh.patch)),
        }
    }
}

/// The review has another layout.
pub open spec fn layout_set(e: Ed, f: Ed, layout: DiffLayout) -> bool {
    let chosen = Ed { ui: Ui { layout, ..e.ui }, ..e };
    if review_index(e) is None || (e.ui.review->0).layout == layout {
        f == chosen
    } else {
        exists|g: Ed| #[trigger]
            rerendered(with_layout(e, layout), g, cursor_place(e, false)) && f == with_status(g, "Diff review: "@ + layout.name() + " view"@)
    }
}

/// The review is laid out for other widths than there are: the area changed,
/// or the text, while it is shown, has less room.
pub open spec fn layout_stale(e: Ed) -> bool {
    match (review_index(e), e.ui.review) {
        (Some(i), Some(r)) => r.layout is Split && (r.area_width != review_widths(e).0 || (i
            == e.current && review_widths(e).1 < r.width)),
        _ => false,
    }
}

/// The tab that the review was entered from.
pub open spec fn origin_of(e: Ed, r: Review) -> Option<int> {
    let by_buffer = match r.origin_buffer_id {
        Some(id) => if id == r.buffer_id {
            None
        } else {
            e.tabs.showing_index(id, 0)
        },
        None => None,
    };
    match by_buffer {
        Some(k) => Some(k),
        None => if r.origin_tab < e.tabs.list.len() && r.origin_tab != e.tabs.current {
            Some(r.origin_tab as int)
        } else {
            None
        },
    }
}

/// The tab that the review was entered from is shown, or a new one where
/// there is none.
pub open spec fn at_origin(e: Ed, f: Ed) -> bool {
    match e.ui.review {
        None => f == e,
        Some(r) => match origin_of(e, r) {
            Some(k) => f == e.tab_shown(k),
            None => exists|b: Buf| #[trigger]
                is_blank(b) && f == (Ed {
                    tabs: e.tabs.without_origins(),
                    ..e
                }).in_new_tab(b, true),
        },
    }
}

/// The file registers after the tab of origin was shown.
pub open spec fn origin_files<B: ClipboardBackend>(
    before: RegisterManager<B>,
    after: RegisterManager<B>,
    e: Ed,
) -> bool {
    match e.ui.review {
        None => after == before,
        Some(r) => match origin_of(e, r) {
            Some(k) => restored_files(before, after, e.tab_left_for(k)),
            None => after == before,
        },
    }
}

/// The review is shown in its tab, or in a new one; it remembers where it was
/// entered from.
pub open spec fn review_entered(e: Ed) -> Ed {
    match (review_index(e), e.ui.review) {
        (Some(i), Some(r)) => {
            let e1 = with_review(
                e,
                Review {
                    origin_buffer_id: Some(e.cur().id),
                    origin_tab: e.tabs.current as usize,
                    ..r
                },
            );
            match e1.tabs.showing_index(r.buffer_id, 0) {
                Some(k) => e1.tab_shown(k),
                None => {
                    let e2 = e1.tab_synced();
                    Ed { tabs: e2.tabs.opened().showing(r.buffer_id), ..e2 }.switched_to(i)
                },
            }
        },
        _ => e,
    }
}

/// The file registers after the review was entered.
pub open spec fn entered_files<B: ClipboardBackend>(
    before: RegisterManager<B>,
    after: RegisterManager<B>,
    e: Ed,
) -> bool {
    match (review_index(e), e.ui.review) {
        (Some(i), Some(r)) => match e.tabs.showing_index(r.buffer_id, 0) {
            Some(k) => restored_files(before, after, e.tab_left_for(k)),
            None => if i != e.current {
                files_move(before, after, e.cur().path, e.bufs[i].path)
            } else {
                after == before
            },
        },
        _ => after == before,
    }
}

/// The cursor jumped to a line and a column of the current buffer, inside its
/// text.
pub open spec fn jumped(e: Ed, f: Ed, line: usize, col: usize) -> bool {
    &&& exists|m: Buf| #[trigger]
        e.cur().moved(m, line as int, col as int) && validated(m, f.cur())
    &&& f == Ed { ui: Ui { center: true, ..e.ui }, ..e.with_cur(f.cur()) }
}

pub open spec fn jumped_dirty(e: Ed, f: Ed, line: usize) -> bool {
    exists|g: Ed| #[trigger] jumped(e, g, line, 0) && f == Ed { ui: Ui { dirty: true, ..g.ui }, ..g }
}

/// The cursor went to the next of some lines of the review in a direction.
pub open spec fn went_to(
    e: Ed,
    f: Ed,
    lines: Seq<usize>,
    forward: bool,
    last: Seq<char>,
    first: Seq<char>,
) -> bool {
    match next_of(lines, e.cur().line(), forward) {
        Some(line) => jumped_dirty(e, f, line),
        None => f == with_status(
            e,
            if forward {
                last
            } else {
                first
            },
        ),
    }
}

/// A line from one on, as a line from zero on.
pub open spec fn source_line(line: usize) -> usize {
    if line > 0 {
        (line - 1) as usize
    } else {
        0
    }
}

/// What going from the review to the source leaves, and the place to open.
pub open spec fn source_opened(e: Ed, f: Ed, res: Option<ReviewTarget>) -> bool {
    match e.ui.review {
        None => res is None && f == e,
        Some(r) => match stat_file(r.page.stat_rows, 0, e.cur().line()) {
            Some(file) => res is None && if file < r.page.file_lines.len() {
                jumped_dirty(e, f, r.page.file_lines[file as int])
            } else {
                f == e
            },
            None => match cursor_target(e, r) {
                None => res is None && f == with_status(
                    e,
                    "Move to a changed line and press Enter to open it"@,
                ),
                Some((file, line)) => {
                    let entry = r.patch.files@[file as int];
                    if entry.status@ == "deleted"@ {
                        res is None && f == with_toast(
                            e,
                            ToastLevel::Warning,
                            entry.path@ + " was deleted on this branch"@,
                        )
                    } else {
                        &&& at_origin(e, f)
                        &&& res matches Some(t) && t.root@ == r.patch.root@ && t.path@
                            == entry.path@ && t.line == line && t.col == source_col(
                            r,
                            cursor_cell(e, r)->0,
                            e.cur().col(),
                            tab_cells(e),
                        )
                    }
                },
            },
        },
    }
}

/// The open review, if there is one, is of another comparison.
pub open spec fn with_spec(e: Ed, spec: Option<Seq<char>>) -> Ed {
    match e.ui.review {
        Some(r) => with_review(e, Review { spec, ..r }),
        None => e,
    }
}

/// The file registers after the review was left to be closed.
pub open spec fn left_files<B: ClipboardBackend>(
    before: RegisterManager<B>,
    after: RegisterManager<B>,
    e: Ed,
) -> bool {
    match review_index(e) {
        None => after == before,
        Some(i) => if i != e.current {
            after == before
        } else if e.tabs.list.len() > 1 {
            restored_files(before, after, e.tab_dropped())
        } else if e.bufs.len() > 1 {
            files_move(
                before,
                after,
                e.cur().path,
                e.bufs[if i == 0 {
                    1
                } else {
                    i - 1
                }].path,
            )
        } else {
            after == before
        },
    }
}

/// The part of the review under the cursor.
pub open spec fn cursor_cell(e: Ed, r: Review) -> Option<ReviewCell> {
    let line = e.cur().line();
    if 0 <= line < r.page.rows.len() {
        r.page.rows[line].cell_for(e.cur().col())
    } else {
        None
    }
}

/// The file and the line that the cursor leads to.
pub open spec fn cursor_target(e: Ed, r: Review) -> Option<(usize, usize)> {
    match cursor_cell(e, r) {
        Some(cell) => target_at(r.page.rows, e.cur().line(), cell.info),
        None => None,
    }
}

/// A spec without white space around it; none where nothing is left.
pub open spec fn chosen_spec(spec: Option<&str>) -> Option<Seq<char>> {
    match spec {
        Some(s) => {
            let t = crate::diff_review::render::trimmed(s@);
            if t.len() > 0 {
                Some(t)
            } else {
                None
            }
        },
        None => None,
    }
}

/// A review of a comparison was opened in a tab of its own.
pub open spec fn review_opened(e: Ed, f: Ed, spec: Option<Seq<char>>, fresh: FreshReview) -> bool {
    exists|g: Ed, b: Buf, page: Drawn, text: Seq<char>| #[trigger]
        opened_as(e, f, g, b, page, text, spec, fresh)
}

pub open spec fn opened_as(
    e: Ed,
    f: Ed,
    g: Ed,
    b: Buf,
    page: Drawn,
    text: Seq<char>,
    spec: Option<Seq<char>>,
    fresh: FreshReview,
) -> bool {
    &&& is_drawn(
        page,
        text,
        f.ui.review->0,
        unsaved_files(e.bufs, e.bufs.len() as int),
        tab_cells(e),
    )
    &&& is_diff_buffer(b, review_title(fresh.patch), text)
    &&& g == e.reading_in_new_tab(b)
    &&& f == Ed {
        ui: Ui {
            review: Some(
                Review {
                    buffer_id: e.next_id as usize,
                    origin_buffer_id: Some(e.cur().id),
                    origin_tab: e.tabs.current as usize,
                    spec,
                    layout: e.ui.layout,
                    patch: fresh.patch,
                    width: review_widths(e).1,
                    area_width: review_widths(e).0,
                    code: fresh.code.model(),
                    page,
                },
            ),
            status: summary_text(fresh.patch),
            dirty: true,
            ..g.ui
        },
        ..g
    }
}

/// The review is not shown any more.
pub open spec fn view_left(e: Ed, g: Ed) -> bool {
    match review_index(e) {
        None => g == e,
        Some(i) => if i != e.current {
            g == e
        } else if e.tabs.list.len() > 1 {
            g == e.tab_closed()
        } else if e.bufs.len() > 1 {
            g == e.switched_to(
                if i == 0 {
                    1
                } else {
                    i - 1
                },
            ).tab_synced()
        } else {
            exists|b: Buf| #[trigger] is_blank(b) && g == added(e, b, true).tab_synced()
        },
    }
}

/// The buffer of the review is gone, unless it is shown.
pub open spec fn without_review_buffer(g: Ed) -> Ed {
    match review_index(g) {
        Some(j) if j != g.current => Ed {
            bufs: g.bufs.remove(j),
            current: if g.current > j {
                g.current - 1
            } else {
                g.current
            },
            ..g
        },
        _ => g,
    }
}

/// The review was closed.
pub open spec fn review_closed(e: Ed, f: Ed) -> bool {
    if review_index(e) is None {
        f == Ed { ui: Ui { review: None, ..e.ui }, ..e }
    } else {
        exists|g: Ed| #[trigger]
            view_left(e, g) && ({
                let h = without_review_buffer(g);
                f == Ed {
                    ui: Ui { review: None, status: "Diff review closed"@, dirty: true, ..h.ui },
                    ..h
                }
            })
    }
}

pub open spec fn remote_view(remote: Option<(String, String)>) -> Option<(Seq<char>, Seq<char>)> {
    match remote {
        Some((remote, branch)) => Some((remote@, branch@)),
        None => None,
    }
}

/// The remote branch that the review compares against: of a comparison that
/// the user chose, else of the base that was resolved.
pub open spec fn review_remote(e: Ed, base: Result<ReviewBase, String>) -> Result<
    Option<(Seq<char>, Seq<char>)>,
    Seq<char>,
> {
    match e.ui.review {
        Some(r) if r.spec is Some => Ok(remote_view(r.patch.base.remote)),
        _ => match base {
            Ok(base) => Ok(remote_view(base.remote)),
            Err(error) => Err(error@),
        },
    }
}

/// What fetching the base of the review asks for, and the editor then.
pub open spec fn fetch_begun(
    e: Ed,
    f: Ed,
    remote: Result<Option<(Seq<char>, Seq<char>)>, Seq<char>>,
    asked: Option<(Seq<char>, Seq<char>)>,
) -> bool {
    if e.ui.fetch is Some {
        asked is None && f == with_toast(e, ToastLevel::Info, "A fetch is already running"@)
    } else {
        match remote {
            Err(error) => asked is None && f == with_toast(
                e,
                ToastLevel::Error,
                "Git fetch: "@ + error,
            ),
            Ok(None) => asked is None && f == with_toast(
                e,
                ToastLevel::Warning,
                "The review base is not a remote branch; nothing to fetch"@,
            ),
            Ok(Some((remote, branch))) => {
                let target = remote + "/"@ + branch;
                &&& asked == Some((remote, branch))
                &&& f == Ed {
                    ui: Ui {
                        fetch: Some(target),
                        status: "Fetching "@ + target + "…"@,
                        ..e.ui
                    },
                    ..e
                }
            },
        }
    }
}

/// The editor after a fetch was looked at.
pub open spec fn fetch_polled(
    e: Ed,
    f: Ed,
    outcome: FetchOutcome,
    fresh: Result<FreshReview, String>,
) -> bool {
    match e.ui.fetch {
        None => f == e,
        Some(target) => {
            let done = Ed { ui: Ui { fetch: None, ..e.ui }, ..e };
            match outcome {
                FetchOutcome::Running => f == e,
                FetchOutcome::Lost => f == with_toast(
                    done,
                    ToastLevel::Error,
                    "Fetch "@ + target + " failed unexpectedly"@,
                ),
                FetchOutcome::Failed(message) => f == with_toast(
                    done,
                    ToastLevel::Error,
                    "Fetch "@ + target + " failed: "@ + if message@.len() == 0 {
                        "git fetch failed"@
                    } else {
                        message@
                    },
                ),
                FetchOutcome::Done => exists|g: Ed| #[trigger]
                    review_refreshed(done, g, fresh) && f == with_toast(
                        g,
                        ToastLevel::Success,
                        if review_index(e) is Some {
                            "Fetched "@ + target + " · review refreshed"@
                        } else {
                            "Fetched "@ + target
                        },
                    ),
            }
        },
    }
}

/// The directory that a review is made in: that of the review that is open,
/// else the one that holds the current file, else the working directory.
pub open spec fn root_hint(e: Ed, cwd: Seq<char>) -> Seq<char> {
    match e.ui.review {
        Some(r) => r.patch.root@,
        None => match e.cur().path {
            Some(path) => match parent_of(joined_path(cwd, path)) {
                Some(dir) => dir,
                None => cwd,
            },
            None => cwd,
        },
    }
}

impl<B: ClipboardBackend> Editor<B> {
    /// The directory that a review is made in.
    pub fn diff_review_root_hint(&self, cwd: &str) -> (root: String)
        requires
            self.model().wf(),
        ensures
            root@ == root_hint(self.model(), cwd@),
    {
        if let Some(review) = self.diff_review() {
            return review.patch.root.clone();
        }
        match self.buffer().file_path() {
            Some(path) => match parent_path(join_path(cwd, path).as_str()) {
                Some(dir) => dir,
                None => cwd.to_owned(),
            },
            None => cwd.to_owned(),
        }
    }

    pub fn diff_review(&self) -> (res: Option<&DiffReviewState>)
        ensures
            match res {
                Some(r) => self.model().ui.review == Some(r.model()),
                None => self.model().ui.review is None,
            },
    {
        match &self.panels.diff_review {
            Some(r) => Some(r),
            None => None,
        }
    }

    /// Whether the review is shown.
    pub fn is_diff_review_buffer(&self) -> (res: bool)
        requires
            self.model().wf(),
        ensures
            res == on_review(self.model()),
    {
        match &self.panels.diff_review {
            Some(r) => r.buffer_id == self.buffer().id(),
            None => false,
        }
    }

    /// The index of the buffer that shows the review.
    pub fn review_buffer_index(&self) -> (res: Option<usize>)
        ensures
            match res {
                Some(k) => review_index(self.model()) == Some(k as int) && k
                    < self.model().bufs.len() && self.model().ui.review is Some,
                None => review_index(self.model()) is None,
            },
    {
        match &self.panels.diff_review {
            Some(r) => self.find_buffer_index_by_id(r.buffer_id),
            None => None,
        }
    }

    /// How many files have unsaved changes.
    pub fn unsaved_buffer_count(&self) -> (n: usize)
        ensures
            n == unsaved_files(self.model().bufs, self.model().bufs.len() as int),
    {
        let mut n: usize = 0;
        let mut k: usize = 0;
        while k < self.buffers.len()
            invariant
                k <= self.buffers.len(),
                n <= k,
                n == unsaved_files(self.model().bufs, k as int),
            decreases self.buffers.len() - k,
        {
            proof {
                assert(self.model().bufs[k as int] == self.buffers@[k as int].model());
            }
            if self.buffers[k].is_modified() && self.buffers[k].file_path().is_some() {
                n += 1;
            }
            k += 1;
        }
        n
    }

    fn diff_review_widths(&self) -> (res: (u16, u16))
        ensures
            res == review_widths(self.model()),
    {
        let area: u16 = match self.panels.last_buffer_area {
            Some(area) => area,
            None => {
                return (0, DEFAULT_LAYOUT_WIDTH as u16);
            },
        };
        let text: u16 = if self.panels.last_text_width > 0 {
            self.panels.last_text_width
        } else {
            area.saturating_sub(self.panels.last_gutter_width)
        };
        let width: u16 = text.saturating_sub(1);
        if width > 20 {
            (area, width)
        } else {
            (area, 20)
        }
    }

    fn diff_review_tab_width(&self) -> (n: usize)
        requires
            self.model().wf(),
        ensures
            n == tab_cells(self.model()),
    {
        self.indent_options().tab_width
    }

    fn diff_review_anchor(&self, match_text: bool) -> (res: Option<Anchor>)
        ensures
            match (res, cursor_place(self.model(), match_text)) {
                (Some(a), Some(p)) => a.model() == p,
                (None, None) => true,
                _ => false,
            },
    {
        let index: usize = match self.review_buffer_index() {
            Some(index) => index,
            None => {
                return None;
            },
        };
        match &self.panels.diff_review {
            Some(state) => {
                proof {
                    assert(self.model().bufs[index as int] == self.buffers@[index as int].model());
                }
                let line: usize = self.buffers[index].cursor().line();
                let text = if match_text {
                    match state.line_text(line) {
                        Some(text) => Some(text.to_owned()),
                        None => None,
                    }
                } else {
                    None
                };
                state.anchor(line, text)
            },
            None => None,
        }
    }

    #[verifier::rlimit(60)]
    fn rerender_diff_review(&mut self, anchor: Option<Anchor>)
        requires
            old(self).wf(),
        ensures
            final(self).wf(),
            final(self).registers == old(self).registers,
            rerendered(old(self).model(), final(self).model(), anchor_place(anchor)),
    {
        let ghost e = self.model();
        let ghost place = anchor_place(anchor);
        let index: usize = match self.review_buffer_index() {
            Some(index) => index,
            None => {
                return;
            },
        };
        let unsaved: usize = self.unsaved_buffer_count();
        let tab_width: usize = self.diff_review_tab_width();
        let drawn = match &mut self.panels.diff_review {
            Some(state) => Some(state.redraw(unsaved, tab_width, &anchor)),
            None => None,
        };
        if let Some((text, title, line)) = drawn {
            let ghost r = e.ui.review->0;
            let ghost page = (self.model().ui.review->0).page;
            proof {
                assert(self.model() == with_review(e, Review { page, ..r }));
            }
            self.show_review(index, text.as_str(), title, line);
            proof {
                redrawn_is(e, self.model(), place, index as int, page, text@);
            }
        } else {
            proof {
                assert(false);
            }
        }
    }

    /// Gives the review's buffer its text and its name, and puts its cursor
    /// on a line.
    fn show_review(&mut self, index: usize, text: &str, title: String, line: Option<usize>)
        requires
            old(self).wf(),
            index < old(self).model().bufs.len(),
        ensures
            final(self).wf(),
            final(self).registers == old(self).registers,
            ({
                let e = old(self).model();
                let f = final(self).model();
                &&& settled(
                    Buf { name: Some(title@), ..e.bufs[index as int].replaced(text@) },
                    f.bufs[index as int],
                    line,
                    index == e.current,
                )
                &&& f == Ed {
                    bufs: e.bufs.update(index as int, f.bufs[index as int]),
                    ui: Ui { dirty: true, center: e.ui.center || index == e.current, ..e.ui },
                    ..e
                }
            }),
    {
        let shown = index == self.current;
        let b = self.buffer_at_mut(index);
        b.replace_content(text);
        b.set_display_name(title);
        let ghost given = b.model();
        if let Some(line) = line {
            b.set_position(line, GraphemeCol(0));
        }
        let ghost m = b.model();
        if shown {
            b.validate_cursor_position();
        }
        proof {
            assert(placed(given, m, line));
        }
        if shown {
            self.center_cursor_in_viewport();
        }
        self.mark_dirty();
    }

    /// Shows another comparison in the review, with the cursor at the same
    /// place of the source.
    pub fn refresh_diff_review(&mut self, fresh: Result<FreshReview, String>)
        requires
            old(self).wf(),
        ensures
            final(self).wf(),
            final(self).registers == old(self).registers,
            review_refreshed(old(self).model(), final(self).model(), fresh),
    {
        let ghost e = self.model();
        if self.review_buffer_index().is_none() {
            return;
        }
        let fresh = match fresh {
            Ok(fresh) => fresh,
            Err(error) => {
                let mut message = "Diff review: ".to_owned();
                message.append(error.as_str());
                self.push_toast(ToastLevel::Error, message);
                return;
            },
        };
        let anchor = self.diff_review_anchor(true);
        let message = summary_message(&fresh.patch);
        let ghost given = fresh;
        if let Some(state) = &mut self.panels.diff_review {
            state.code = fresh.code.into_lines();
            state.patch = fresh.patch;
        }
        proof {
            assert(self.model() == with_comparison(e, given));
        }
        self.rerender_diff_review(anchor);
        let ghost g = self.model();
        self.set_status_message(message.as_str());
        proof {
            assert(rerendered(with_comparison(e, given), g, cursor_place(e, true)));
        }
    }

    /// Switches between the layouts.
    pub fn toggle_diff_review_layout(&mut self)
        requires
            old(self).wf(),
        ensures
            final(self).wf(),
            final(self).registers == old(self).registers,
            ({
                let e = old(self).model();
                layout_set(
                    e,
                    final(self).model(),
                    match e.ui.review {
                        Some(r) => r.layout.other(),
                        None => e.ui.layout.other(),
                    },
                )
            }),
    {
        let layout = match &self.panels.diff_review {
            Some(state) => state.layout,
            None => self.panels.diff_review_layout,
        };
        self.set_diff_review_layout(layout.toggled());
    }

    /// Lays the review out in another way, with the cursor at the same place
    /// of the source. Reviews opened later have that layout too.
    pub fn set_diff_review_layout(&mut self, layout: DiffLayout)
        requires
            old(self).wf(),
        ensures
            final(self).wf(),
            final(self).registers == old(self).registers,
            layout_set(old(self).model(), final(self).model(), layout),
    {
        let ghost e = self.model();
        self.panels.diff_review_layout = layout;
        proof {
            same_index(self.model(), e);
        }
        if self.review_buffer_index().is_none() {
            return;
        }
        let same = match &self.panels.diff_review {
            Some(state) => state.layout == layout,
            None => false,
        };
        if same {
            return;
        }
        let anchor = self.diff_review_anchor(false);
        if let Some(state) = &mut self.panels.diff_review {
            state.layout = layout;
        }
        proof {
            assert(self.model() == with_layout(e, layout));
        }
        self.rerender_diff_review(anchor);
        let ghost g = self.model();
        let mut message = "Diff review: ".to_owned();
        message.append(layout.label());
        message.append(" view");
        self.set_status_message(message.as_str());
        proof {
            assert(rerendered(with_layout(e, layout), g, cursor_place(e, false)));
        }
    }

    /// Lays the review out anew where the window has another width; whether it
    /// did.
    pub fn relayout_diff_review(&mut self) -> (done: bool)
        requires
            old(self).wf(),
        ensures
            final(self).wf(),
            final(self).registers == old(self).registers,
            done == layout_stale(old(self).model()),
            if done {
                rerendered(
                    with_widths(old(self).model()),
                    final(self).model(),
                    cursor_place(old(self).model(), true),
                )
            } else {
                final(self).model() == old(self).model()
            },
    {
        let ghost e = self.model();
        let index: usize = match self.review_buffer_index() {
            Some(index) => index,
            None => {
                return false;
            },
        };
        let (area_width, width) = self.diff_review_widths();
        let visible = index == self.current;
        let stale = match &self.panels.diff_review {
            Some(state) => state.layout == DiffLayout::Split && (state.layout_area_width
                != area_width || (visible && width < state.layout_width)),
            None => false,
        };
        if !stale {
            return false;
        }
        let anchor = self.diff_review_anchor(true);
        if let Some(state) = &mut self.panels.diff_review {
            state.layout_width = width;
            state.layout_area_width = area_width;
        }
        proof {
            assert(self.model() == with_widths(e));
        }
        self.rerender_diff_review(anchor);
        true
    }

    /// A click in the review; whether it was on the toolbar.
    pub fn diff_review_click(&mut self, line: usize, col: usize) -> (hit: bool)
        requires
            old(self).wf(),
        ensures
            final(self).wf(),
            final(self).registers == old(self).registers,
            ({
                let e = old(self).model();
                let button = if on_review(e) && (e.ui.review->0).page.toolbar.line == line {
                    button_at((e.ui.review->0).page.toolbar.buttons@, 0, col as int)
                } else {
                    None
                };
                match button {
                    Some(layout) => hit && layout_set(e, final(self).model(), layout),
                    None => !hit && final(self).model() == e,
                }
            }),
    {
        if !self.is_diff_review_buffer() {
            return false;
        }
        let layout = match &self.panels.diff_review {
            Some(state) => state.toolbar.hit(line, col),
            None => None,
        };
        match layout {
            Some(layout) => {
                self.set_diff_review_layout(layout);
                true
            },
            None => false,
        }
    }

    /// Shows the tab that the review was entered from.
    pub fn go_to_review_origin(&mut self)
        requires
            old(self).wf(),
            old(self).next_id < usize::MAX,
            old(self).tabs.next_id < usize::MAX,
        ensures
            final(self).wf(),
            at_origin(old(self).model(), final(self).model()),
            origin_files(old(self).registers, final(self).registers, old(self).model()),
    {
        let (review_id, origin_id, origin_tab) = match &self.panels.diff_review {
            Some(state) => (state.buffer_id, state.origin_buffer_id, state.origin_tab),
            None => {
                return;
            },
        };
        let by_buffer = match origin_id {
            Some(id) => if id == review_id {
                None
            } else {
                self.tabs.position_showing(id)
            },
            None => None,
        };
        let target = match by_buffer {
            Some(k) => Some(k),
            None => if origin_tab < self.tabs.tabs.len() && origin_tab != self.tabs.current {
                Some(origin_tab)
            } else {
                None
            },
        };
        match target {
            Some(tab) => self.goto_tab(tab),
            None => self.new_tab(),
        }
    }

    /// Leaves the review for the tab that it was entered from.
    pub fn leave_diff_review(&mut self)
        requires
            old(self).wf(),
            old(self).next_id < usize::MAX,
            old(self).tabs.next_id < usize::MAX,
        ensures
            final(self).wf(),
            exists|g: Ed| #[trigger]
                at_origin(old(self).model(), g) && final(self).model() == (Ed {
                    ui: Ui { dirty: true, ..g.ui },
                    ..g
                }),
            origin_files(old(self).registers, final(self).registers, old(self).model()),
    {
        self.go_to_review_origin();
        let ghost g = self.model();
        proof {
            assert(at_origin(old(self).model(), g));
        }
        self.mark_dirty();
    }

    #[verifier::rlimit(80)]
    fn show_review_tab(&mut self)
        requires
            old(self).wf(),
            old(self).tabs.next_id < usize::MAX,
        ensures
            final(self).wf(),
            final(self).model() == review_entered(old(self).model()),
            entered_files(old(self).registers, final(self).registers, old(self).model()),
    {
        let ghost e = self.model();
        let index: usize = match self.review_buffer_index() {
            Some(index) => index,
            None => {
                return;
            },
        };
        let current_id: usize = self.buffer().id();
        let current_tab: usize = self.tabs.current;
        let mut review_id: usize = 0;
        if let Some(state) = &mut self.panels.diff_review {
            state.origin_buffer_id = Some(current_id);
            state.origin_tab = current_tab;
            review_id = state.buffer_id;
        }
        let ghost e1 = self.model();
        proof {
            assert(e1 == with_review(
                e,
                Review {
                    origin_buffer_id: Some(e.cur().id),
                    origin_tab: e.tabs.current as usize,
                    ..e.ui.review->0
                },
            ));
            same_restore(e1, e);
        }
        match self.tabs.position_showing(review_id) {
            Some(tab) => {
                self.goto_tab(tab);
            },
            None => {
                self.sync_current_tab_buffer();
                self.tabs.new_tab();
                self.tabs.set_buffer_id(review_id);
                self.switch_to_buffer(index);
            },
        }
    }

    /// Shows the review and another comparison in it.
    pub fn enter_diff_review(&mut self, fresh: Result<FreshReview, String>)
        requires
            old(self).wf(),
            old(self).tabs.next_id < usize::MAX,
        ensures
            final(self).wf(),
            review_refreshed(review_entered(old(self).model()), final(self).model(), fresh),
            entered_files(old(self).registers, final(self).registers, old(self).model()),
    {
        self.show_review_tab();
        self.refresh_diff_review(fresh);
    }
}

impl<B: ClipboardBackend> Editor<B> {
    fn open_new_review(&mut self, spec: Option<String>, fresh: FreshReview)
        requires
            old(self).wf(),
            old(self).next_id < usize::MAX,
            old(self).tabs.next_id < usize::MAX,
        ensures
            final(self).wf(),
            final(self).registers == old(self).registers,
            review_opened(old(self).model(), final(self).model(), opt_view(spec), fresh),
    {
        let ghost e = self.model();
        let ghost given = fresh;
        let layout = self.panels.diff_review_layout;
        let (area_width, width) = self.diff_review_widths();
        let unsaved: usize = self.unsaved_buffer_count();
        let tab_width: usize = self.diff_review_tab_width();
        let origin_buffer_id = Some(self.buffer().id());
        let origin_tab: usize = self.tabs.current;
        let buffer_id: usize = self.next_id;
        let code = PatchHighlights::from_lines(fresh.code.into_lines());
        let mut state = DiffReviewState {
            buffer_id,
            origin_buffer_id,
            origin_tab,
            explicit_spec: spec,
            layout,
            patch: fresh.patch,
            layout_width: width,
            layout_area_width: area_width,
            rows: Vec::new(),
            stat_rows: Vec::new(),
            hunk_lines: Vec::new(),
            file_lines: Vec::new(),
            file_nav: Vec::new(),
            toolbar: Toolbar { line: 0, buttons: Vec::new() },
            text_lines: Vec::new(),
            code: code.into_lines(),
            highlights: Vec::new(),
        };
        let ghost r = state.model();
        proof {
            assert(r.code == given.code.model());
        }
        let anchor: Option<Anchor> = None;
        let (text, title, _) = state.redraw(unsaved, tab_width, &anchor);
        let message = summary_message(&state.patch);
        self.open_diff_buffer_in_new_tab(title.as_str(), text.as_str());
        let ghost g = self.model();
        let ghost b = choose|b: Buf| #[trigger]
            is_diff_buffer(b, title@, text@) && g == e.reading_in_new_tab(b);
        let ghost page = state.model().page;
        self.panels.diff_review = Some(state);
        self.set_status_message(message.as_str());
        self.mark_dirty();
        proof {
            same_drawing(
                page,
                text@,
                r,
                Review { page, ..r },
                unsaved as nat,
                tab_width as int,
            );
            assert(self.model().ui.review == Some(Review { page, ..r }));
            opened_is(e, self.model(), g, b, page, text@, r.spec, given);
        }
    }

    /// Opens a review of a comparison, or shows it in the review that is open;
    /// an error where there is no comparison to open one with.
    pub fn open_diff_review(&mut self, spec: Option<&str>, fresh: Result<FreshReview, String>) -> (res:
        Result<(), String>)
        requires
            old(self).wf(),
            old(self).next_id < usize::MAX,
            old(self).tabs.next_id < usize::MAX,
        ensures
            final(self).wf(),
            ({
                let e = with_spec(old(self).model(), chosen_spec(spec));
                let f = final(self).model();
                if review_index(e) is None {
                    &&& final(self).registers == old(self).registers
                    &&& match (fresh, res) {
                        (Ok(fresh), Ok(_)) => review_opened(e, f, chosen_spec(spec), fresh),
                        (Err(a), Err(b)) => a@ == b@ && f == e,
                        _ => false,
                    }
                } else {
                    &&& res is Ok
                    &&& if on_review(e) {
                        review_refreshed(e, f, fresh) && final(self).registers
                            == old(self).registers
                    } else {
                        review_refreshed(review_entered(e), f, fresh) && entered_files(
                            old(self).registers,
                            final(self).registers,
                            e,
                        )
                    }
                }
            }),
    {
        let ghost e0 = self.model();
        let chosen = match spec {
            Some(s) => {
                let t = trim_text(s);
                if t.as_str().unicode_len() > 0 {
                    Some(t)
                } else {
                    None
                }
            },
            None => None,
        };
        if let Some(state) = &mut self.panels.diff_review {
            state.explicit_spec = copy_option(&chosen);
        }
        proof {
            assert(self.model() == with_spec(e0, chosen_spec(spec)));
        }
        if self.review_buffer_index().is_some() {
            if self.is_diff_review_buffer() {
                self.refresh_diff_review(fresh);
            } else {
                self.enter_diff_review(fresh);
            }
            return Ok(());
        }
        match fresh {
            Ok(fresh) => {
                self.open_new_review(chosen, fresh);
                Ok(())
            },
            Err(error) => Err(error),
        }
    }

    /// Opens the review, comes back to it, or leaves it. On leaving, the
    /// comparison is not looked at.
    pub fn toggle_diff_review(&mut self, fresh: Result<FreshReview, String>)
        requires
            old(self).wf(),
            old(self).next_id < usize::MAX,
            old(self).tabs.next_id < usize::MAX,
        ensures
            final(self).wf(),
            ({
                let e = old(self).model();
                let f = final(self).model();
                if on_review(e) {
                    &&& exists|g: Ed| #[trigger]
                        at_origin(e, g) && f == (Ed { ui: Ui { dirty: true, ..g.ui }, ..g })
                    &&& origin_files(old(self).registers, final(self).registers, e)
                } else if review_index(e) is Some {
                    &&& review_refreshed(review_entered(e), f, fresh)
                    &&& entered_files(old(self).registers, final(self).registers, e)
                } else {
                    &&& final(self).registers == old(self).registers
                    &&& match fresh {
                        Ok(fresh) => review_opened(with_spec(e, None), f, None, fresh),
                        Err(error) => f == with_toast(
                            with_spec(e, None),
                            ToastLevel::Error,
                            "Diff review: "@ + error@,
                        ),
                    }
                }
            }),
    {
        let ghost e = self.model();
        if self.is_diff_review_buffer() {
            self.leave_diff_review();
            return;
        }
        if self.review_buffer_index().is_some() {
            self.enter_diff_review(fresh);
            return;
        }
        proof {
            same_index(with_spec(e, None), e);
        }
        match self.open_diff_review(None, fresh) {
            Ok(_) => {},
            Err(error) => {
                let mut message = "Diff review: ".to_owned();
                message.append(error.as_str());
                self.push_toast(ToastLevel::Error, message);
            },
        }
    }

    fn leave_review_view(&mut self)
        requires
            old(self).wf(),
            old(self).next_id < usize::MAX,
        ensures
            final(self).wf(),
            view_left(old(self).model(), final(self).model()),
            left_files(old(self).registers, final(self).registers, old(self).model()),
    {
        let ghost e = self.model();
        let index: usize = match self.review_buffer_index() {
            Some(index) => index,
            None => {
                return;
            },
        };
        if index != self.current {
            return;
        }
        if self.tabs.tabs.len() > 1 {
            self.close_current_tab();
        } else if self.buffers.len() > 1 {
            let other: usize = if index == 0 {
                1
            } else {
                index - 1
            };
            self.switch_to_buffer(other);
            self.sync_current_tab_buffer();
        } else {
            let blank = Buffer::new_from_str("");
            proof {
                reveal_strlit("");
                assert(is_blank(blank.model()));
            }
            self.add_buffer(blank);
            self.sync_current_tab_buffer();
        }
    }

    fn remove_review_buffer(&mut self)
        requires
            old(self).wf(),
        ensures
            final(self).wf(),
            final(self).registers == old(self).registers,
            final(self).model() == without_review_buffer(old(self).model()),
    {
        let index: usize = match self.review_buffer_index() {
            Some(index) => index,
            None => {
                return;
            },
        };
        if index == self.current {
            return;
        }
        let ghost before = buf_models(self.buffers@);
        let _ = self.buffers.remove(index);
        proof {
            assert(buf_models(self.buffers@) =~= before.remove(index as int));
        }
        if self.current > index {
            self.current -= 1;
        }
    }

    /// Closes the review: its tab, its buffer and what is known of it.
    pub fn close_diff_review(&mut self)
        requires
            old(self).wf(),
            old(self).next_id < usize::MAX,
        ensures
            final(self).wf(),
            review_closed(old(self).model(), final(self).model()),
            left_files(old(self).registers, final(self).registers, old(self).model()),
    {
        let ghost e = self.model();
        if self.review_buffer_index().is_none() {
            self.panels.diff_review = None;
            return;
        }
        self.leave_review_view();
        let ghost g = self.model();
        self.remove_review_buffer();
        self.panels.diff_review = None;
        self.set_status_message("Diff review closed");
        self.mark_dirty();
        proof {
            assert(view_left(e, g));
        }
    }

    pub(crate) fn jump_to_line(&mut self, line: usize, col: usize)
        requires
            old(self).wf(),
        ensures
            final(self).wf(),
            final(self).registers == old(self).registers,
            jumped(old(self).model(), final(self).model(), line, col),
    {
        let ghost e = self.model();
        let b = self.buffer_mut();
        b.set_position(line, GraphemeCol(col));
        let ghost m = b.model();
        b.validate_cursor_position();
        proof {
            assert(e.cur().moved(m, line as int, col as int));
        }
        self.center_cursor_in_viewport();
    }

    fn jump_to_review_line(&mut self, line: usize)
        requires
            old(self).wf(),
        ensures
            final(self).wf(),
            final(self).registers == old(self).registers,
            jumped_dirty(old(self).model(), final(self).model(), line),
    {
        self.jump_to_line(line, 0);
        let ghost g = self.model();
        self.mark_dirty();
        proof {
            assert(jumped(old(self).model(), g, line, 0));
        }
    }

    /// Goes from the review to the source at the cursor: the place to open,
    /// once the tab that the review was entered from is shown. On a row of the
    /// summary the cursor goes to its file instead.
    pub fn diff_review_open_at_cursor(&mut self) -> (res: Option<ReviewTarget>)
        requires
            old(self).wf(),
            old(self).next_id < usize::MAX,
            old(self).tabs.next_id < usize::MAX,
            ({
                let e = old(self).model();
                e.ui.review matches Some(r) && cursor_target(e, r) matches Some(t) ==> t.0
                    < r.patch.files@.len()
            }),
        ensures
            final(self).wf(),
            source_opened(
                old(self).model(),
                final(self).model(),
                res,
            ),
            match res {
                Some(_) => origin_files(old(self).registers, final(self).registers, old(self).model()),
                None => final(self).registers == old(self).registers,
            },
    {
        let ghost e = self.model();
        let cursor = *self.buffer().cursor();
        let line: usize = cursor.line();
        let col: usize = cursor.col().0;
        let tab_width: usize = self.diff_review_tab_width();
        let state = match &self.panels.diff_review {
            Some(state) => state,
            None => {
                return None;
            },
        };
        if let Some(file) = state.file_for_stat_row(line) {
            if file < state.file_lines.len() {
                let target: usize = state.file_lines[file];
                self.jump_to_review_line(target);
            }
            return None;
        }
        let cell = if line < state.rows.len() {
            state.rows[line].cell_at(col)
        } else {
            None
        };
        let target = match cell {
            Some(cell) => match state.cell_target(line, cell.info) {
                Some(t) => Some((cell, t)),
                None => None,
            },
            None => None,
        };
        let (cell, (file_index, new_line)) = match target {
            Some(t) => t,
            None => {
                self.set_status_message("Move to a changed line and press Enter to open it");
                return None;
            },
        };
        let file = &state.patch.files[file_index];
        if same_text(file.status.as_str(), "deleted") {
            let mut message = file.path.clone();
            message.append(" was deleted on this branch");
            self.push_toast(ToastLevel::Warning, message);
            return None;
        }
        let target_col: usize = state.source_column(&cell, col, tab_width);
        let root = state.patch.root.clone();
        let path = file.path.clone();
        self.go_to_review_origin();
        Some(ReviewTarget { root, path, line: new_line, col: target_col })
    }

    /// Puts the cursor at a place of the source, once its file is shown, or
    /// says why it is not.
    pub fn show_review_target(&mut self, target: &ReviewTarget, opened: Result<(), String>)
        requires
            old(self).wf(),
        ensures
            final(self).wf(),
            final(self).registers == old(self).registers,
            match opened {
                Err(error) => final(self).model() == with_toast(
                    old(self).model(),
                    ToastLevel::Error,
                    "Could not open "@ + target.path@ + ": "@ + error@,
                ),
                Ok(_) => exists|g: Ed| #[trigger]
                    jumped(
                        old(self).model(),
                        g,
                        source_line(target.line),
                        target.col,
                    ) && final(self).model() == (Ed {
                        ui: Ui {
                            status: target.path@ + ":"@ + digits(target.line as nat)
                                + " · <Space>gd returns to the review"@,
                            dirty: true,
                            ..g.ui
                        },
                        ..g
                    }),
            },
    {
        if let Err(error) = opened {
            let mut message = "Could not open ".to_owned();
            message.append(target.path.as_str());
            message.append(": ");
            message.append(error.as_str());
            self.push_toast(ToastLevel::Error, message);
            return;
        }
        self.jump_to_line(target.line.saturating_sub(1), target.col);
        let ghost g = self.model();
        let mut message = target.path.clone();
        message.append(":");
        message.append(decimal(target.line as u64).as_str());
        message.append(" · <Space>gd returns to the review");
        self.set_status_message(message.as_str());
        self.mark_dirty();
        proof {
            assert(jumped(old(self).model(), g, source_line(target.line), target.col));
        }
    }

    /// Goes to the next change in a direction: a hunk of the review, or one of
    /// the changed regions of the file.
    pub fn goto_change(&mut self, forward: bool, starts: &Vec<usize>)
        requires
            old(self).wf(),
        ensures
            final(self).wf(),
            final(self).registers == old(self).registers,
            ({
                let e = old(self).model();
                let f = final(self).model();
                if on_review(e) {
                    went_to(e, f, (e.ui.review->0).page.hunks, forward, "Last hunk"@, "First hunk"@)
                } else {
                    match next_of(starts@, e.cur().line(), forward) {
                        Some(line) => jumped(e, f, line, 0),
                        None => f == with_status(
                            e,
                            if forward {
                                "No more changes below"@
                            } else {
                                "No more changes above"@
                            },
                        ),
                    }
                }
            }),
    {
        if self.is_diff_review_buffer() {
            self.diff_review_goto_hunk(forward);
            return;
        }
        let line: usize = self.buffer().cursor().line();
        match next_in(starts, line, forward) {
            Some(line) => self.jump_to_line(line, 0),
            None => self.set_status_message(
                if forward {
                    "No more changes below"
                } else {
                    "No more changes above"
                },
            ),
        }
    }

    /// Goes to the next hunk of the review in a direction.
    pub fn diff_review_goto_hunk(&mut self, forward: bool)
        requires
            old(self).wf(),
        ensures
            final(self).wf(),
            final(self).registers == old(self).registers,
            ({
                let e = old(self).model();
                match e.ui.review {
                    Some(r) => went_to(
                        e,
                        final(self).model(),
                        r.page.hunks,
                        forward,
                        "Last hunk"@,
                        "First hunk"@,
                    ),
                    None => final(self).model() == e,
                }
            }),
    {
        let line: usize = self.buffer().cursor().line();
        let target = match &self.panels.diff_review {
            Some(state) => next_in(&state.hunk_lines, line, forward),
            None => {
                return;
            },
        };
        match target {
            Some(line) => self.jump_to_review_line(line),
            None => self.set_status_message(
                if forward {
                    "Last hunk"
                } else {
                    "First hunk"
                },
            ),
        }
    }

    /// Goes to the next file of the review in a direction.
    pub fn diff_review_goto_file(&mut self, forward: bool)
        requires
            old(self).wf(),
        ensures
            final(self).wf(),
            final(self).registers == old(self).registers,
            ({
                let e = old(self).model();
                match e.ui.review {
                    Some(r) => went_to(
                        e,
                        final(self).model(),
                        r.page.file_nav,
                        forward,
                        "Last file"@,
                        "First file"@,
                    ),
                    None => final(self).model() == e,
                }
            }),
    {
        let line: usize = self.buffer().cursor().line();
        let target = match &self.panels.diff_review {
            Some(state) => next_in(&state.file_nav, line, forward),
            None => {
                return;
            },
        };
        match target {
            Some(line) => self.jump_to_review_line(line),
            None => self.set_status_message(
                if forward {
                    "Last file"
                } else {
                    "First file"
                },
            ),
        }
    }

    fn base_to_fetch(&self, base: Result<ReviewBase, String>) -> (res: Result<
        Option<(String, String)>,
        String,
    >)
        ensures
            match (res, review_remote(self.model(), base)) {
                (Ok(a), Ok(b)) => remote_view(a) == b,
                (Err(a), Err(b)) => a@ == b,
                _ => false,
            },
    {
        if let Some(state) = &self.panels.diff_review {
            if state.explicit_spec.is_some() {
                return Ok(copy_remote(&state.patch.base.remote));
            }
        }
        match base {
            Ok(base) => Ok(base.remote),
            Err(error) => Err(error),
        }
    }

    /// Begins to fetch the base of the review: what to fetch, the remote and
    /// the branch. `base` is the base that was resolved, or why none was.
    pub fn fetch_review_base(&mut self, base: Result<ReviewBase, String>) -> (asked: Option<
        (String, String),
    >)
        requires
            old(self).wf(),
        ensures
            final(self).wf(),
            final(self).registers == old(self).registers,
            fetch_begun(
                old(self).model(),
                final(self).model(),
                review_remote(old(self).model(), base),
                remote_view(asked),
            ),
    {
        if self.panels.pending_git_fetch.is_some() {
            self.push_toast(ToastLevel::Info, "A fetch is already running".to_owned());
            return None;
        }
        let remote = match self.base_to_fetch(base) {
            Ok(remote) => remote,
            Err(error) => {
                let mut message = "Git fetch: ".to_owned();
                message.append(error.as_str());
                self.push_toast(ToastLevel::Error, message);
                return None;
            },
        };
        match remote {
            None => {
                self.push_toast(
                    ToastLevel::Warning,
                    "The review base is not a remote branch; nothing to fetch".to_owned(),
                );
                None
            },
            Some((remote, branch)) => {
                let mut target = remote.clone();
                target.append("/");
                target.append(branch.as_str());
                let mut message = "Fetching ".to_owned();
                message.append(target.as_str());
                message.append("…");
                self.panels.pending_git_fetch = Some(PendingGitFetch { target });
                self.set_status_message(message.as_str());
                Some((remote, branch))
            },
        }
    }

    /// Takes how a fetch went; whether something changed. After one that is
    /// done the review shows the comparison as it is now.
    pub fn poll_git_fetch(&mut self, outcome: FetchOutcome, fresh: Result<FreshReview, String>) -> (changed:
        bool)
        requires
            old(self).wf(),
        ensures
            final(self).wf(),
            final(self).registers == old(self).registers,
            changed == (old(self).model().ui.fetch is Some && !(outcome is Running)),
            fetch_polled(old(self).model(), final(self).model(), outcome, fresh),
    {
        let ghost e = self.model();
        let target = match &self.panels.pending_git_fetch {
            Some(pending) => pending.target.clone(),
            None => {
                return false;
            },
        };
        if let FetchOutcome::Running = outcome {
            return false;
        }
        self.panels.pending_git_fetch = None;
        let ghost done = self.model();
        proof {
            assert(done == Ed { ui: Ui { fetch: None, ..e.ui }, ..e });
            same_index(done, e);
        }
        match outcome {
            FetchOutcome::Running => {},
            FetchOutcome::Done => {
                let shown = self.review_buffer_index().is_some();
                self.refresh_diff_review(fresh);
                let ghost g = self.model();
                let mut message = "Fetched ".to_owned();
                message.append(target.as_str());
                if shown {
                    message.append(" · review refreshed");
                }
                self.push_toast(ToastLevel::Success, message);
                proof {
                    assert(review_refreshed(done, g, fresh));
                }
            },
            FetchOutcome::Failed(text) => {
                let mut message = "Fetch ".to_owned();
                message.append(target.as_str());
                message.append(" failed: ");
                if text.as_str().unicode_len() == 0 {
                    message.append("git fetch failed");
                } else {
                    message.append(text.as_str());
                }
                self.push_toast(ToastLevel::Error, message);
            },
            FetchOutcome::Lost => {
                let mut message = "Fetch ".to_owned();
                message.append(target.as_str());
                message.append(" failed unexpectedly");
                self.push_toast(ToastLevel::Error, message);
            },
        }
        true
    }
}

fn copy_remote(remote: &Option<(String, String)>) -> (out: Option<(String, String)>)
    ensures
        match (out, *remote) {
            (Some(a), Some(b)) => a.0@ == b.0@ && a.1@ == b.1@,
            (None, None) => true,
            _ => false,
        },
{
    match remote {
        Some((a, b)) => Some((a.clone(), b.clone())),
        None => None,
    }
}

proof fn same_drawing(
    page: Drawn,
    text: Seq<char>,
    r: Review,
    s: Review,
    unsaved: nat,
    tab_width: int,
)
    requires
        is_drawn(page, text, r, unsaved, tab_width),
        s.patch == r.patch,
        s.layout == r.layout,
        s.width == r.width,
        s.code == r.code,
    ensures
        is_drawn(page, text, s, unsaved, tab_width),
{
}

proof fn opened_is(
    e: Ed,
    f: Ed,
    g: Ed,
    b: Buf,
    page: Drawn,
    text: Seq<char>,
    spec: Option<Seq<char>>,
    fresh: FreshReview,
)
    requires
        opened_as(e, f, g, b, page, text, spec, fresh),
    ensures
        review_opened(e, f, spec, fresh),
{
}

/// Closing the review leaves no review, keeps every other buffer, and shows
/// another one.
pub proof fn closing_removes_the_review(e: Ed, f: Ed)
    requires
        e.wf(),
        e.ids_are_distinct(),
        review_index(e) matches Some(i) && i != e.current,
        review_closed(e, f),
    ensures
        f.ui.review is None,
        f.bufs == e.bufs.remove(review_index(e)->0),
        f.cur() == e.cur(),
{
    crate::editor::tab_manager::target_is_inside(e, (e.ui.review->0).buffer_id, 0);
}

proof fn redrawn_is(e: Ed, f: Ed, place: Option<Place>, i: int, page: Drawn, text: Seq<char>)
    requires
        review_index(e) == Some(i),
        redrawn(e, f, place, i, page, text),
    ensures
        rerendered(e, f, place),
{
    assert(redrawn(e, f, place, review_index(e)->0, page, text));
    assert(exists|page: Drawn, text: Seq<char>| #[trigger]
            redrawn(e, f, place, i, page, text));
}

proof fn same_index(a: Ed, b: Ed)
    requires
        a.bufs == b.bufs,
    ensures
        forall|id: usize| #[trigger] a.index_by_id(id, 0) == b.index_by_id(id, 0),
{
    assert forall|id: usize| #[trigger] a.index_by_id(id, 0) == b.index_by_id(id, 0) by {
        crate::editor::tab_manager::index_only_reads_bufs(a, b, id, 0);
    }
}

/// Which buffer a tab leads to depends on the buffers and the tabs alone.
proof fn same_restore(a: Ed, b: Ed)
    requires
        a.bufs == b.bufs,
        a.tabs == b.tabs,
        a.current == b.current,
    ensures
        forall|k: int| (#[trigger] a.tab_left_for(k)).tab_target() == b.tab_left_for(k).tab_target(),
{
    assert forall|k: int|
        (#[trigger] a.tab_left_for(k)).tab_target() == b.tab_left_for(k).tab_target() by {
        same_index(a.tab_left_for(k), b.tab_left_for(k));
    }
}

} // verus!
