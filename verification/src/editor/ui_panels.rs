//! Panels, overlays and notices.
use crate::diff_review::render::DiffLayout;
use crate::diff_review::{
    fetch_model, review_model, DiffReviewState, PendingGitFetch, Review,
};
use crate::editor::pseudocode::PseudocodeView;
use vstd::prelude::*;

verus! {

/// How a notice is shown.
#[derive(Debug, Clone, Copy, PartialEq, Eq, Structural)]
pub enum ToastLevel {
    Info,
    Success,
    Warning,
    Error,
}

/// A notice.
#[derive(Debug)]
pub struct Toast {
    pub level: ToastLevel,
    pub message: String,
}

/// Panel and overlay state.
pub struct UiPanels {
    /// Source-mapped reading buffers
    pub pseudocode: Vec<PseudocodeView>,
    /// Latest message for the user
    pub status_message: String,
    pub toasts: Vec<Toast>,
    pub quickfix_window_open: bool,
    pub location_window_open: bool,
    /// Whether the diagnostic badge has been dismissed
    pub diagnostic_badge_dismissed: bool,
    /// Errors and warnings when the badge was last set
    pub diagnostic_badge_last_count: (usize, usize),
    /// Open branch review, if any
    pub diff_review: Option<DiffReviewState>,
    /// Background fetch started from the review
    pub pending_git_fetch: Option<PendingGitFetch>,
    /// Layout the next review opens in
    pub diff_review_layout: DiffLayout,
    pub dirty: bool,
    pub center_cursor: bool,
    /// Width of the area that shows the buffer, once it was drawn
    pub last_buffer_area: Option<u16>,
    pub last_text_width: u16,
    pub last_gutter_width: u16,
}

/// A model of the panels.
pub ghost struct Ui {
    pub views: Seq<PseudocodeView>,
    pub status: Seq<char>,
    pub toasts: Seq<(ToastLevel, Seq<char>)>,
    pub windows: (bool, bool),
    pub badge: (bool, (usize, usize)),
    pub review: Option<Review>,
    pub fetch: Option<Seq<char>>,
    pub layout: DiffLayout,
    pub dirty: bool,
    pub center: bool,
    pub widths: (Option<u16>, u16, u16),
}

pub open spec fn toasts_model(list: Seq<Toast>) -> Seq<(ToastLevel, Seq<char>)> {
    list.map_values(|t: Toast| (t.level, t.message@))
}

/// Panels of which none is open.
pub open spec fn new_ui() -> Ui {
    Ui {
        views: Seq::empty(),
        status: Seq::empty(),
        toasts: Seq::empty(),
        windows: (false, false),
        badge: (false, (0, 0)),
        review: None,
        fetch: None,
        layout: DiffLayout::Unified,
        dirty: false,
        center: false,
        widths: (None, 0, 0),
    }
}

impl UiPanels {
    pub open spec fn model(self) -> Ui {
        Ui {
            views: self.pseudocode@,
            status: self.status_message@,
            toasts: toasts_model(self.toasts@),
            windows: (self.quickfix_window_open, self.location_window_open),
            badge: (self.diagnostic_badge_dismissed, self.diagnostic_badge_last_count),
            review: review_model(self.diff_review),
            fetch: fetch_model(self.pending_git_fetch),
            layout: self.diff_review_layout,
            dirty: self.dirty,
            center: self.center_cursor,
            widths: (self.last_buffer_area, self.last_text_width, self.last_gutter_width),
        }
    }

    pub fn new() -> (p: UiPanels)
        ensures
            p.model() == new_ui(),
    {
        let p = UiPanels {
            pseudocode: Vec::new(),
            status_message: String::new(),
            toasts: Vec::new(),
            quickfix_window_open: false,
            location_window_open: false,
            diagnostic_badge_dismissed: false,
            diagnostic_badge_last_count: (0, 0),
            diff_review: None,
            pending_git_fetch: None,
            diff_review_layout: DiffLayout::Unified,
            dirty: false,
            center_cursor: false,
            last_buffer_area: None,
            last_text_width: 0,
            last_gutter_width: 0,
        };
        proof {
            assert(p.model().views =~= Seq::<PseudocodeView>::empty());
            assert(p.model().toasts =~= Seq::<(ToastLevel, Seq<char>)>::empty());
            assert(p.model().status =~= Seq::<char>::empty());
        }
        p
    }
}

} // verus!
