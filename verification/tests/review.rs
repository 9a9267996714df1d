use ovim_core::buffer::Buffer;
use ovim_core::diff_review::highlight::PatchHighlights;
use ovim_core::diff_review::render::DiffLayout;
use ovim_core::editor::clipboard::NoClipboard;
use ovim_core::editor::review::{FetchOutcome, FreshReview};
use ovim_core::editor::ui_panels::ToastLevel;
use ovim_core::editor::Editor;
use ovim_core::native_diff::{
    BaseKind, DiffFile, PatchLine, PatchLineKind, ReviewBase, ReviewPatch,
};
use ovim_core::paths::{join_path, parent_path};
use ovim_core::unicode::GraphemeCol;

fn line(
    kind: PatchLineKind,
    file: usize,
    old_line: Option<usize>,
    new_line: Option<usize>,
) -> PatchLine {
    PatchLine {
        kind,
        file: Some(file),
        old_line,
        new_line,
    }
}

fn file(path: &str, status: &str) -> DiffFile {
    DiffFile {
        path: path.to_string(),
        old_path: None,
        status: status.to_string(),
        additions: 1,
        deletions: 1,
        binary: false,
    }
}

fn base(remote: Option<(&str, &str)>) -> ReviewBase {
    ReviewBase {
        name: "main".to_string(),
        spec: "main".to_string(),
        kind: BaseKind::DefaultBranch,
        remote: remote.map(|(a, b)| (a.to_string(), b.to_string())),
        ever_fetched: false,
        fetched_ago: None,
    }
}

fn patch() -> ReviewPatch {
    ReviewPatch {
        root: "/repo".to_string(),
        base: base(None),
        head: "topic".to_string(),
        merge_base: None,
        comparison_base_oid: None,
        ahead: 1,
        behind: 0,
        text: "diff --git a/a.rs b/a.rs\n@@ -1,2 +1,2 @@\n fn a() {\n-old\n+\tnew\ndiff --git a/b.rs b/b.rs\n@@ -1 +0,0 @@\n-gone\n".to_string(),
        lines: vec![
            line(PatchLineKind::FileHeader, 0, None, None),
            line(PatchLineKind::HunkHeader, 0, Some(1), Some(1)),
            line(PatchLineKind::Context, 0, Some(1), Some(1)),
            line(PatchLineKind::Removed, 0, Some(2), None),
            line(PatchLineKind::Added, 0, None, Some(2)),
            line(PatchLineKind::FileHeader, 1, None, None),
            line(PatchLineKind::HunkHeader, 1, Some(1), Some(1)),
            line(PatchLineKind::Removed, 1, Some(1), None),
        ],
        files: vec![file("a.rs", "modified"), file("b.rs", "deleted")],
        truncated: false,
    }
}

fn fresh() -> Result<FreshReview, String> {
    Ok(FreshReview {
        patch: patch(),
        code: PatchHighlights::from_lines(vec![]),
    })
}

fn opened() -> Editor<NoClipboard> {
    let mut editor = Editor::with_content("source\n", NoClipboard::new());
    editor.open_diff_review(None, fresh()).unwrap();
    editor
}

fn put_cursor_on(editor: &mut Editor<NoClipboard>, text: &str, col: usize) -> usize {
    let content = editor.buffer().to_text();
    let line = content.lines().position(|l| l == text).unwrap();
    editor.buffer_mut().set_position(line, GraphemeCol(col));
    line
}

#[test]
fn opening_shows_the_patch_in_a_tab_of_its_own() {
    let editor = opened();
    assert!(editor.is_diff_review_buffer());
    assert_eq!(editor.tab_count(), 2);
    assert_eq!(editor.buffer().display_name(), Some("Diff · topic → main"));
    assert!(editor.buffer().is_read_only());
    assert!(editor.buffer().to_text().contains("+\tnew\n"));
    let state = editor.diff_review().unwrap();
    assert_eq!(state.root(), "/repo");
    assert_eq!(state.base().name, "main");
}

#[test]
fn errors_are_told() {
    let mut editor = Editor::with_content("", NoClipboard::new());
    assert_eq!(
        editor.open_diff_review(None, Err("no repository".to_string())),
        Err("no repository".to_string())
    );
    editor.toggle_diff_review(Err("no repository".to_string()));
    let toast = &editor.panels.toasts[0];
    assert_eq!(toast.level, ToastLevel::Error);
    assert_eq!(toast.message, "Diff review: no repository");
}

#[test]
fn toggling_leaves_and_comes_back() {
    let mut editor = opened();
    editor.toggle_diff_review(fresh());
    assert!(!editor.is_diff_review_buffer());
    assert_eq!(editor.buffer().to_text(), "source\n");
    editor.toggle_diff_review(fresh());
    assert!(editor.is_diff_review_buffer());
    assert_eq!(editor.tab_count(), 2);
}

#[test]
fn hunks_and_files_are_walked() {
    let mut editor = opened();
    editor.buffer_mut().set_position(0, GraphemeCol(0));
    editor.diff_review_goto_hunk(true);
    let first = editor.buffer().cursor().line();
    editor.diff_review_goto_hunk(true);
    let second = editor.buffer().cursor().line();
    assert!(second > first);
    editor.diff_review_goto_hunk(true);
    assert_eq!(editor.status_message(), "Last hunk");
    editor.diff_review_goto_hunk(false);
    assert_eq!(editor.buffer().cursor().line(), first);
    editor.diff_review_goto_file(true);
    editor.diff_review_goto_file(true);
    assert_eq!(editor.status_message(), "Last file");
}

#[test]
fn going_to_the_source_finds_line_and_column() {
    let mut editor = opened();
    put_cursor_on(&mut editor, "+\tnew", 3);
    let target = editor.diff_review_open_at_cursor().unwrap();
    assert_eq!(
        (target.root.as_str(), target.path.as_str(), target.line, target.col),
        ("/repo", "a.rs", 2, 2)
    );
    assert!(!editor.is_diff_review_buffer());
    editor.show_review_target(&target, Err("gone".to_string()));
    assert_eq!(
        editor.panels.toasts[0].message,
        "Could not open a.rs: gone"
    );
    editor.add_buffer(Buffer::new_from_str("fn a() {\n\tnew\n"));
    editor.show_review_target(&target, Ok(()));
    assert_eq!(editor.buffer().cursor().line(), 1);
    assert_eq!(editor.buffer().cursor().col(), GraphemeCol(2));
    assert_eq!(
        editor.status_message(),
        "a.rs:2 · <Space>gd returns to the review"
    );
}

#[test]
fn deleted_files_and_headers_lead_nowhere() {
    let mut editor = opened();
    put_cursor_on(&mut editor, "-gone", 1);
    assert!(editor.diff_review_open_at_cursor().is_none());
    assert_eq!(
        editor.panels.toasts[0].message,
        "b.rs was deleted on this branch"
    );
    editor.buffer_mut().set_position(0, GraphemeCol(0));
    assert!(editor.diff_review_open_at_cursor().is_none());
    assert_eq!(
        editor.status_message(),
        "Move to a changed line and press Enter to open it"
    );
    let (row, file) = editor.diff_review().unwrap().stat_rows[1];
    editor.buffer_mut().set_position(row, GraphemeCol(0));
    assert!(editor.diff_review_open_at_cursor().is_none());
    assert_eq!(
        editor.buffer().cursor().line(),
        editor.diff_review().unwrap().file_lines[file]
    );
}

#[test]
fn switching_the_layout_keeps_the_place() {
    let mut editor = opened();
    put_cursor_on(&mut editor, " fn a() {", 0);
    editor.toggle_diff_review_layout();
    assert_eq!(editor.status_message(), "Diff review: Split view");
    assert_eq!(editor.diff_review().unwrap().layout, DiffLayout::Split);
    let line = editor.buffer().cursor().line();
    let state = editor.diff_review().unwrap();
    assert_eq!(state.source_target(line), Some((0, 1)));
    assert!(line > state.file_lines[0]);
    let (at, col) = {
        let toolbar = &editor.diff_review().unwrap().toolbar;
        (toolbar.line, toolbar.buttons[0].0.start)
    };
    assert!(!editor.diff_review_click(at + 1, col));
    assert!(editor.diff_review_click(at, col));
    assert_eq!(editor.diff_review().unwrap().layout, DiffLayout::Unified);
}

#[test]
fn a_place_without_a_row_of_its_own_becomes_its_file() {
    let mut editor = opened();
    put_cursor_on(&mut editor, "+\tnew", 0);
    editor.toggle_diff_review_layout();
    let line = editor.buffer().cursor().line();
    assert_eq!(line, editor.diff_review().unwrap().file_lines[0]);
}

#[test]
fn only_a_resize_lays_out_anew() {
    let mut editor = opened();
    assert!(!editor.relayout_diff_review());
    editor.set_diff_review_layout(DiffLayout::Split);
    editor.panels.last_buffer_area = Some(100);
    editor.panels.last_text_width = 90;
    assert!(editor.relayout_diff_review());
    assert_eq!(editor.diff_review().unwrap().layout_width, 89);
    assert!(!editor.relayout_diff_review());
    editor.panels.last_text_width = 95;
    assert!(!editor.relayout_diff_review());
    editor.panels.last_text_width = 80;
    assert!(editor.relayout_diff_review());
}

#[test]
fn lines_know_their_tints() {
    let mut editor = opened();
    let line = put_cursor_on(&mut editor, "+\tnew", 0);
    let state = editor.diff_review().unwrap();
    assert_eq!(state.line_tints(line), vec![(0..5, true)]);
    assert_eq!(state.line_trailing_tint(line), Some(true));
    assert_eq!(state.line_tints(0), vec![]);
    assert_eq!(state.line_trailing_tint(0), None);
}

#[test]
fn closing_drops_the_buffer() {
    let mut editor = opened();
    editor.close_diff_review();
    assert!(editor.diff_review().is_none());
    assert_eq!(editor.buffer_count(), 1);
    assert_eq!(editor.buffer().to_text(), "source\n");
    assert_eq!(editor.status_message(), "Diff review closed");
    editor.close_diff_review();
}

#[test]
fn changes_of_a_file_are_walked() {
    let mut editor = Editor::with_content("a\nb\nc\nd\n", NoClipboard::new());
    let starts = vec![1, 3];
    editor.goto_change(true, &starts);
    assert_eq!(editor.buffer().cursor().line(), 1);
    editor.goto_change(true, &starts);
    editor.goto_change(true, &starts);
    assert_eq!(editor.buffer().cursor().line(), 3);
    assert_eq!(editor.status_message(), "No more changes below");
    editor.goto_change(false, &starts);
    assert_eq!(editor.buffer().cursor().line(), 1);
    editor.goto_change(false, &starts);
    assert_eq!(editor.status_message(), "No more changes above");
}

#[test]
fn fetching_tells_how_it_went() {
    let mut editor = opened();
    assert_eq!(
        editor.fetch_review_base(Err("no remote".to_string())),
        None
    );
    assert_eq!(editor.panels.toasts[0].message, "Git fetch: no remote");
    assert_eq!(editor.fetch_review_base(Ok(base(None))), None);
    assert_eq!(
        editor.fetch_review_base(Ok(base(Some(("origin", "main"))))),
        Some(("origin".to_string(), "main".to_string()))
    );
    assert_eq!(editor.status_message(), "Fetching origin/main…");
    assert_eq!(
        editor.fetch_review_base(Ok(base(Some(("origin", "main"))))),
        None
    );
    assert_eq!(
        editor.panels.toasts[2].message,
        "A fetch is already running"
    );
    assert!(!editor.poll_git_fetch(FetchOutcome::Running, fresh()));
    assert!(editor.poll_git_fetch(FetchOutcome::Done, fresh()));
    assert_eq!(
        editor.panels.toasts[3].message,
        "Fetched origin/main · review refreshed"
    );
    assert!(!editor.poll_git_fetch(FetchOutcome::Done, fresh()));
    editor.fetch_review_base(Ok(base(Some(("origin", "main")))));
    assert!(editor.poll_git_fetch(FetchOutcome::Failed(String::new()), fresh()));
    assert_eq!(
        editor.panels.toasts[4].message,
        "Fetch origin/main failed: git fetch failed"
    );
    editor.fetch_review_base(Ok(base(Some(("origin", "main")))));
    assert!(editor.poll_git_fetch(FetchOutcome::Lost, fresh()));
    assert_eq!(
        editor.panels.toasts[5].message,
        "Fetch origin/main failed unexpectedly"
    );
}

#[test]
fn reviews_are_made_where_the_file_is() {
    let mut editor = Editor::with_content("", NoClipboard::new());
    assert_eq!(editor.diff_review_root_hint("/work"), "/work");
    for (path, root) in [
        ("/repo/src/a.rs", "/repo/src"),
        ("/a.rs", "/"),
        ("/", "/work"),
        ("src/a.rs", "/work/src"),
        ("a.rs", "/work"),
        ("./src/./a.rs/", "/work/./src"),
        ("../a.rs", "/work/.."),
    ] {
        editor.set_file_path(path.to_string());
        assert_eq!(editor.diff_review_root_hint("/work"), root);
    }
    assert_eq!(opened().diff_review_root_hint("/work"), "/repo");
}

#[test]
fn parents_are_those_of_paths() {
    for path in [
        "", "/", "//", ".", "./", "..", "a", "a/", "a//b", "a/./b/.", "./a", "./.", "/.", "/./a",
        "/a/..", "a/../b/", ".a", "../..", "/a//b///",
    ] {
        let expected = std::path::Path::new(path).parent();
        let expected = expected.map(|p| p.to_str().unwrap().to_string());
        assert_eq!(parent_path(path), expected, "{path}");
    }
    for (dir, path) in [("/a", "b"), ("/a/", "b"), ("", "b"), ("/a", "/b"), ("/a", ""), (".", "b")] {
        let expected = std::path::Path::new(dir).join(path);
        assert_eq!(join_path(dir, path), expected.to_str().unwrap(), "{dir} {path}");
    }
}
