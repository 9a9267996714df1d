use ovim_core::diff_review::highlight::{ParsedSource, PatchHighlights};
use ovim_core::diff_review::next_in;
use ovim_core::diff_review::render::{
    chunk_glyphs, humanize, layout_body, patch_bodies, render, summary_message, DiffLayout,
};
use ovim_core::native_diff::{
    BaseKind, DiffFile, PatchLine, PatchLineKind, ReviewBase, ReviewPatch,
};
use ovim_core::syntax::{HighlightGroup, Language};

#[test]
fn next_in_moves_relative_to_cursor() {
    let lines = vec![3, 8, 12];
    assert_eq!(next_in(&lines, 0, true), Some(3));
    assert_eq!(next_in(&lines, 3, true), Some(8));
    assert_eq!(next_in(&lines, 12, true), None);
    assert_eq!(next_in(&lines, 12, false), Some(8));
    assert_eq!(next_in(&lines, 3, false), None);
}

#[test]
fn humanize_buckets() {
    assert_eq!(humanize(10), "just now");
    assert_eq!(humanize(600), "10 min ago");
    assert_eq!(humanize(3 * 3600), "3 h ago");
    assert_eq!(humanize(3 * 86_400), "3 d ago");
}

#[test]
fn tabs_expand_to_the_next_stop_and_point_back_at_the_tab() {
    let glyphs = layout_body("\tx", 4, true);
    assert_eq!(glyphs.len(), 5);
    assert!(glyphs[..4].iter().all(|glyph| glyph.src_byte == 0));
    assert_eq!(glyphs[4].src_byte, 1);

    // Without expansion a tab is a single glyph, so unified rows keep the
    // raw patch bytes.
    let raw = layout_body("\tx", 4, false);
    assert_eq!(raw.len(), 2);
}

#[test]
fn chunking_never_loops_on_a_glyph_wider_than_the_column() {
    let glyphs = layout_body("日本語", 4, true);
    let runs = chunk_glyphs(&glyphs, 1);
    assert_eq!(runs.len(), 3);
    assert_eq!(runs[0], 0..1);
}

#[test]
fn chunking_an_empty_body_yields_one_empty_run() {
    assert_eq!(chunk_glyphs(&vec![], 20), vec![0..0]);
}

#[test]
fn layout_parses_its_command_argument() {
    assert_eq!(DiffLayout::parse("Split"), Some(DiffLayout::Split));
    assert_eq!(DiffLayout::parse("unified"), Some(DiffLayout::Unified));
    assert_eq!(DiffLayout::parse("nope"), None);
}

fn line(kind: PatchLineKind, old_line: Option<usize>, new_line: Option<usize>) -> PatchLine {
    PatchLine {
        kind,
        file: Some(0),
        old_line,
        new_line,
    }
}

fn patch() -> ReviewPatch {
    ReviewPatch {
        root: "/repo".to_string(),
        base: ReviewBase {
            name: "main".to_string(),
            spec: "main".to_string(),
            kind: BaseKind::DefaultBranch,
            remote: None,
            ever_fetched: false,
            fetched_ago: None,
        },
        head: "topic".to_string(),
        merge_base: None,
        comparison_base_oid: None,
        ahead: 1,
        behind: 0,
        text: "diff --git a/a.rs b/a.rs\n@@ -1,2 +1,2 @@\n fn a() {\n-old\n+new\n".to_string(),
        lines: vec![
            line(PatchLineKind::FileHeader, None, None),
            line(PatchLineKind::HunkHeader, Some(1), Some(1)),
            line(PatchLineKind::Context, Some(1), Some(1)),
            line(PatchLineKind::Removed, Some(2), None),
            line(PatchLineKind::Added, None, Some(2)),
        ],
        files: vec![DiffFile {
            path: "a.rs".to_string(),
            old_path: None,
            status: "modified".to_string(),
            additions: 1,
            deletions: 1,
            binary: false,
        }],
        truncated: false,
    }
}

#[test]
fn bodies_lose_their_marker_column() {
    let bodies = patch_bodies(&patch());
    assert_eq!(bodies[2], "fn a() {");
    assert_eq!(bodies[3], "old");
    assert_eq!(bodies[4], "new");
    assert_eq!(bodies[1], "@@ -1,2 +1,2 @@");
}

#[test]
fn unified_rendering_shows_every_patch_line() {
    let rendered = render(
        &patch(),
        PatchHighlights::from_lines(vec![]),
        DiffLayout::Unified,
        80,
        0,
        4,
    );
    assert_eq!(rendered.title, "Diff · topic → main");
    assert!(rendered.text.contains("\n fn a() {\n-old\n+new\n"));
    assert_eq!(rendered.hunk_lines.len(), 1);
    let hunk = rendered.hunk_lines[0];
    let lines: Vec<&str> = rendered.text.lines().collect();
    assert_eq!(lines[hunk], "@@ -1,2 +1,2 @@");
    assert_eq!(rendered.rows[hunk + 3].left.unwrap().info.new_line, Some(2));
    assert_eq!(rendered.toolbar.buttons.len(), 2);
}

#[test]
fn split_rendering_pairs_old_and_new_lines() {
    let rendered = render(
        &patch(),
        PatchHighlights::from_lines(vec![]),
        DiffLayout::Split,
        80,
        0,
        4,
    );
    let pair = rendered
        .rows
        .iter()
        .find(|row| {
            row.left.map(|cell| cell.patch_line) == Some(3)
                && row.right.map(|cell| cell.patch_line) == Some(4)
        })
        .unwrap();
    let tints = pair.tints();
    assert_eq!(tints.len(), 2);
    assert!(!tints[0].1);
    assert!(tints[1].1);
}

#[test]
fn summary_counts_files_and_lines() {
    let message = summary_message(&patch());
    assert!(message.contains("1 file"), "{message}");
    assert!(message.contains("+1"), "{message}");
}

#[test]
fn highlights_ask_for_each_side_and_keep_context_from_the_new_one() {
    let patch = patch();
    let bodies = patch_bodies(&patch);
    let request = PatchHighlights::compute(&patch, &bodies, &vec![]).unwrap_err();
    assert_eq!(request.language, Language::Rust);
    assert_eq!(request.source, "fn a() {\nnew");
    let new_side = |parsed: bool| ParsedSource {
        language: Language::Rust,
        source: "fn a() {\nnew".to_string(),
        lines: if parsed {
            Some(vec![
                vec![(0..2, HighlightGroup::Keyword)],
                vec![(0..3, HighlightGroup::Type)],
            ])
        } else {
            None
        },
    };
    let request = PatchHighlights::compute(&patch, &bodies, &vec![new_side(true)]).unwrap_err();
    assert_eq!(request.source, "old");
    let parsed = vec![
        new_side(true),
        ParsedSource {
            language: Language::Rust,
            source: "old".to_string(),
            lines: Some(vec![vec![(0..3, HighlightGroup::String)]]),
        },
    ];
    let highlights = PatchHighlights::compute(&patch, &bodies, &parsed).unwrap();
    assert!(highlights.line(0).is_empty());
    assert_eq!(*highlights.line(2), vec![(0..2, HighlightGroup::Keyword)]);
    assert_eq!(*highlights.line(3), vec![(0..3, HighlightGroup::String)]);
    assert_eq!(*highlights.line(4), vec![(0..3, HighlightGroup::Type)]);
    assert!(highlights.line(9).is_empty());
    // A grammar that cannot be loaded leaves its lines plain: the context line
    // then belongs to the old side as well.
    let request = PatchHighlights::compute(&patch, &bodies, &vec![new_side(false)]).unwrap_err();
    assert_eq!(request.source, "fn a() {\nold");
}

#[test]
fn unified_rows_hold_the_patch_and_split_rows_every_line() {
    let text = "diff --git a/a.rs b/a.rs\n@@ -1,3 +1,2 @@\n fn a() {\n-\told\n-gone\n+\tnew\n";
    let line = |kind, old_line, new_line| PatchLine {
        kind,
        file: Some(0),
        old_line,
        new_line,
    };
    let patch = ReviewPatch {
        root: "/repo".to_string(),
        base: ReviewBase {
            name: "main".to_string(),
            spec: "main".to_string(),
            kind: BaseKind::DefaultBranch,
            remote: None,
            ever_fetched: false,
            fetched_ago: None,
        },
        head: "topic".to_string(),
        merge_base: None,
        comparison_base_oid: None,
        ahead: 1,
        behind: 0,
        text: text.to_string(),
        lines: vec![
            line(PatchLineKind::FileHeader, None, None),
            line(PatchLineKind::HunkHeader, Some(1), Some(1)),
            line(PatchLineKind::Context, Some(1), Some(1)),
            line(PatchLineKind::Removed, Some(2), None),
            line(PatchLineKind::Removed, Some(3), None),
            line(PatchLineKind::Added, None, Some(2)),
        ],
        files: vec![DiffFile {
            path: "a.rs".to_string(),
            old_path: None,
            status: "modified".to_string(),
            additions: 1,
            deletions: 2,
            binary: false,
        }],
        truncated: false,
    };
    let none = || PatchHighlights::from_lines(vec![]);
    let unified = render(&patch, none(), DiffLayout::Unified, 80, 0, 4);
    assert!(unified.text.ends_with(text));
    let split = render(&patch, none(), DiffLayout::Split, 80, 0, 4);
    let left = |i| split.rows.iter().any(|r| r.left.is_some_and(|c| c.patch_line == i));
    let right = |i| split.rows.iter().any(|r| r.right.is_some_and(|c| c.patch_line == i));
    assert!(left(1) && left(2) && left(3) && left(4));
    assert!(right(2) && right(5) && !right(3));
}

#[test]
fn unified_rows_keep_carriage_returns() {
    let mut crlf = patch();
    crlf.text = crlf.text.replace('\n', "\r\n");
    let none = PatchHighlights::from_lines(vec![]);
    let rendered = render(&crlf, none, DiffLayout::Unified, 80, 0, 4);
    assert!(rendered.text.ends_with(&crlf.text));
    assert_eq!(rendered.rows.len(), rendered.highlights.len());
}
