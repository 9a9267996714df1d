use base64::engine::general_purpose::URL_SAFE_NO_PAD;
use base64::engine::Engine;
use ovim_core::ai::approval::permission_summary;
use ovim_core::ai::custom_diff::{
    alias_to_bind, check_custom_diff, custom_diff_replay_id, hex, read_diff, reference_name,
    show_custom_diff, ReadDiffArgs, SectionSides, ShowCustomDiffArgs,
};
use ovim_core::ai::diff_pages::{context_preview, diff_page, PageCursor, PageError, MAX_PAGE_BYTES};
use ovim_core::ai::page_answer::answer_read_diff;
use ovim_core::ai::tool_input::ShowCustomDiffInput;
use ovim_core::ai::tools::{
    read_diff_definition, show_custom_diff_definition, FileScope, SideEffect,
};
use ovim_core::editor::ai_chat::{
    AiChat, ChatMessage, ReplayStep, ToolCallInfo, ToolEventSummary, ToolSummaryKind,
};
use ovim_core::editor::clipboard::NoClipboard;
use ovim_core::editor::Editor;
use ovim_core::json::Json;
use ovim_core::native_diff::{
    BaseKind, DiffFile, PatchLine, PatchLineKind, ReviewBase, ReviewBlock, ReviewPatch,
    ReviewSnapshot,
};

fn text(s: &str) -> Json {
    Json::Text(s.to_string())
}

fn number(n: u64) -> Json {
    Json::Number(n.to_string())
}

fn object(fields: Vec<(&str, Json)>) -> Json {
    let mut fields: Vec<(String, Json)> = fields
        .into_iter()
        .map(|(key, value)| (key.to_string(), value))
        .collect();
    fields.sort_by(|a, b| a.0.cmp(&b.0));
    Json::Object(fields)
}

#[test]
fn shell_approval_shows_exact_command_and_description_without_json() {
    let command = "cd 'norsk 🦦'\nprintf '%s\\n' \"$VALUE\" && npm test";
    let input = object(vec![
        ("command", text(command)),
        ("description", text("Run project tests")),
        ("timeout", number(120000)),
    ]);
    let summary = permission_summary("Agent", "Bash", &input, "Shell access needs approval");
    assert_eq!(summary, format!("Agent: Bash\n\nRun project tests\n\nCommand:\n{command}\n\nReason: Shell access needs approval\n\ntimeout: 120000\n\nApproval applies to this invocation only."));
    assert_eq!(input.get("command"), Some(&text(command)));
}

#[test]
fn missing_description_uses_reason_and_duplicate_reason_is_not_repeated() {
    let summary = permission_summary(
        "Agent",
        "Bash",
        &object(vec![("command", text("npm test"))]),
        "Run tests",
    );
    assert!(summary.contains("Command:\nnpm test\n\nReason: Run tests"));
    let summary = permission_summary(
        "Agent",
        "Bash",
        &object(vec![
            ("command", text("npm test")),
            ("description", text("Run tests")),
        ]),
        "Run tests",
    );
    assert_eq!(summary.matches("Run tests").count(), 1);
}

#[test]
fn non_shell_approvals_preserve_paths_changes_and_nested_arguments() {
    let summary = permission_summary(
        "Agent",
        "Edit",
        &object(vec![
            ("file_path", text("src/main.rs")),
            ("old_string", text("one\ntwo")),
            ("new_string", text("tre 🦦")),
            ("replace_all", Json::Bool(false)),
        ]),
        "Approve edit",
    );
    assert!(summary.contains("file path: src/main.rs"));
    assert!(summary.contains("old string:\n  one\n  two"));
    assert!(summary.contains("new string: tre 🦦"));
    assert!(summary.contains("replace all: false"));
    let summary = permission_summary(
        "Agent",
        "mcp__custom__request",
        &object(vec![
            (
                "targets",
                Json::List(vec![object(vec![
                    ("path", text("/tmp/a")),
                    ("recursive", Json::Bool(true)),
                ])]),
            ),
            ("options", object(vec![])),
            ("note", Json::Null),
        ]),
        "",
    );
    assert!(summary.contains("targets:\n  1:\n    path: /tmp/a\n    recursive: true"));
    assert!(summary.contains("options: Empty"));
    assert!(summary.contains("note: Not supplied"));
}

#[test]
fn invalid_command_shape_remains_visible_for_review() {
    let summary = permission_summary(
        "Agent",
        "Bash",
        &object(vec![
            ("command", Json::List(vec![text("unexpected")])),
            ("description", number(42)),
        ]),
        "Invalid input",
    );
    assert!(summary.contains("command:\n  1: unexpected"));
    assert!(summary.contains("description: 42"));
}

#[test]
fn input_that_is_no_object_is_shown_whole() {
    let summary = permission_summary("Agent", "Tool", &text("a\nb"), "");
    assert_eq!(
        summary,
        "Agent: Tool\n\nInput:\n  a\n  b\n\nApproval applies to this invocation only."
    );
}

#[test]
fn custom_review_rejects_multiline_display_labels_before_storage() {
    for (title, label, expected) in [
        ("  ", "Move", "title"),
        ("First\nsecond", "Move", "title"),
        ("Review", "Move\rnext", "labels"),
    ] {
        let message =
            check_custom_diff(title, &vec![Some(label.to_string())], "invalid-label").unwrap_err();
        assert!(message.contains(expected));
    }
    assert_eq!(
        check_custom_diff("Review", &vec![None], "").unwrap_err(),
        "The tool call has no replay identity"
    );
    assert!(check_custom_diff("Review", &vec![None], "call").is_ok());
}

fn snapshot(lines: &[&str]) -> ReviewSnapshot {
    let mut patch_text = "@@ -0,0 +1 @@\n".to_string();
    for line in lines {
        patch_text.push('+');
        patch_text.push_str(line);
        patch_text.push('\n');
    }
    patch_text.push_str(" tail\n");
    let info = |kind| PatchLine {
        kind,
        file: Some(0),
        old_line: None,
        new_line: Some(1),
    };
    let mut infos = vec![info(PatchLineKind::HunkHeader)];
    infos.extend(lines.iter().map(|_| info(PatchLineKind::Added)));
    infos.push(info(PatchLineKind::Context));
    ReviewSnapshot {
        id: "diff_1".to_string(),
        patch: ReviewPatch {
            root: "/repo".to_string(),
            base: ReviewBase {
                name: "main".to_string(),
                spec: "main".to_string(),
                kind: BaseKind::DefaultBranch,
                remote: None,
                ever_fetched: false,
                fetched_ago: None,
            },
            head: "topic".to_string(),
            merge_base: None,
            comparison_base_oid: None,
            ahead: 0,
            behind: 0,
            text: patch_text,
            lines: infos,
            files: vec![DiffFile {
                path: "anchor.txt".to_string(),
                old_path: None,
                status: "modified".to_string(),
                additions: lines.len(),
                deletions: 0,
                binary: false,
            }],
            truncated: false,
        },
        blocks: vec![ReviewBlock {
            id: "added_0".to_string(),
            kind: PatchLineKind::Added,
            file: 0,
            patch_line_start: 1,
            start_line: 1,
            line_count: lines.len(),
        }],
    }
}

fn args(snapshot_id: Option<&str>, limit: Option<usize>, cursor: Option<String>) -> ReadDiffArgs {
    ReadDiffArgs {
        snapshot_id: snapshot_id.map(str::to_string),
        limit,
        cursor,
    }
}

#[test]
fn read_diff_pages_long_lines_without_losing_bytes() {
    let replacement = "x".repeat(MAX_PAGE_BYTES * 2 + 37);
    let snapshot = snapshot(&[&replacement]);
    let sizes = vec![10];
    let mut cursor = None;
    let mut reconstructed = String::new();
    let mut pages = 0;
    for _ in 0..10 {
        let id = cursor.as_ref().map(|_| "diff_1");
        let page = read_diff(&args(id, Some(2), cursor.clone()), &snapshot, &sizes).unwrap();
        pages += 1;
        for block in &page.blocks {
            reconstructed.push_str(&block.content);
        }
        let next = match page.next_cursor {
            Some(next) => next.encode(),
            None => break,
        };
        assert_ne!(cursor.as_deref(), Some(next.as_str()));
        cursor = Some(next);
    }
    assert_eq!(pages, 3);
    assert_eq!(reconstructed, replacement);
}

#[test]
fn pages_hold_so_many_lines_and_go_on() {
    let snapshot = snapshot(&["one", "two", "three"]);
    let first = PageCursor::first("diff_1");
    let page = diff_page(&snapshot, &first, Some(2), &vec![10]).unwrap();
    assert_eq!(page.total_changed_lines, 3);
    assert_eq!(page.files, (0, 1));
    let block = &page.blocks[0];
    assert_eq!(block.content, "one\ntwo");
    assert_eq!(block.shown_line_count, 2);
    assert_eq!(block.path, "anchor.txt");
    assert_eq!(block.context_before, Some(vec![]));
    assert_eq!(block.context_after, None);
    let next = page.next_cursor.unwrap();
    assert_eq!((next.line_offset, next.byte_offset), (2, 0));
    let page = diff_page(&snapshot, &next, Some(2), &vec![10]).unwrap();
    assert_eq!(page.blocks[0].content, "three");
    assert_eq!(page.blocks[0].block_offset, 2);
    assert_eq!(
        page.blocks[0].context_after,
        Some(vec!["tail".to_string()])
    );
    assert!(page.next_cursor.is_none());
}

#[test]
fn cursors_read_back_and_belong_to_their_snapshot() {
    let cursor = PageCursor {
        snapshot_id: "diff_\"1\" æ".to_string(),
        line_offset: 7,
        byte_offset: 32_768,
        file_offset: 2,
    };
    let written = cursor.encode();
    assert_ne!(written, "{}");
    assert!(written
        .chars()
        .all(|c| c.is_ascii_alphanumeric() || c == '-' || c == '_'));
    assert_eq!(
        PageCursor::decode(&written, "diff_\"1\" æ").unwrap(),
        cursor
    );
    assert_eq!(
        PageCursor::decode(&written, "other").unwrap_err(),
        "Diff cursor belongs to another snapshot"
    );
    for broken in ["!!", "e30", "bm90IGpzb24"] {
        assert_eq!(
            PageCursor::decode(broken, "x").unwrap_err(),
            "Invalid diff cursor"
        );
    }
}

#[test]
fn page_requests_are_checked() {
    let mut snapshot = snapshot(&["æ"]);
    assert_eq!(
        read_diff(&args(None, None, Some("x".to_string())), &snapshot, &vec![]).unwrap_err(),
        "A diff cursor requires snapshot_id"
    );
    assert_eq!(
        read_diff(&args(Some("other"), None, None), &snapshot, &vec![]).unwrap_err(),
        "Stored review snapshot identity does not match the request"
    );
    let inside = PageCursor {
        snapshot_id: "diff_1".to_string(),
        line_offset: 0,
        byte_offset: 1,
        file_offset: 0,
    };
    assert_eq!(
        read_diff(
            &args(Some("diff_1"), None, Some(inside.encode())),
            &snapshot,
            &vec![]
        )
        .unwrap_err(),
        "byte_offset is outside the requested changed line"
    );
    assert_eq!(PageError::CannotSplit.message(), "Changed line cannot be split at a UTF-8 boundary");
    snapshot.patch.truncated = true;
    assert!(read_diff(&args(None, None, None), &snapshot, &vec![])
        .unwrap_err()
        .contains("complete patch limit"));
}

#[test]
fn context_is_cut_between_characters() {
    let mut left = 5;
    assert_eq!(
        context_preview("æøå!", &mut left).as_deref(),
        Some("æø…")
    );
    assert_eq!(left, 0);
    assert_eq!(context_preview("a", &mut left), None);
    let mut left = 4096;
    assert_eq!(context_preview("plain", &mut left).as_deref(), Some("plain"));
    assert_eq!(left, 4091);
}

#[test]
fn names_of_stored_parts_are_digests() {
    assert_eq!(hex(&vec![0, 15, 16, 255]), "000f10ff");
    assert_eq!(
        reference_name("review", "abc"),
        "review-ba7816bf8f01cfea414140de5dae2223b00361a396177a9cb410ff61f20015ad"
    );
}

#[test]
fn markers_are_found_in_objects_and_in_text_blocks() {
    let plain = "{\"ovim_custom_diff_id\":\"call-1\"}";
    assert_eq!(custom_diff_replay_id(plain).as_deref(), Some("call-1"));
    let native = format!("Target: review\n{plain}");
    assert_eq!(custom_diff_replay_id(&native).as_deref(), Some("call-1"));
    let blocks = "[{\"type\":\"image\"},{\"type\":\"text\",\"text\":\"{\\\"ovim_custom_diff_id\\\":\\\"call-2\\\"}\"}]";
    assert_eq!(custom_diff_replay_id(blocks).as_deref(), Some("call-2"));
    assert_eq!(custom_diff_replay_id("not json"), None);
    assert_eq!(custom_diff_replay_id("{\"other\":1}"), None);
    assert_eq!(
        alias_to_bind("call-1", plain),
        Ok(None)
    );
    assert_eq!(
        alias_to_bind("provider", plain),
        Ok(Some("call-1".to_string()))
    );
    assert_eq!(
        alias_to_bind("provider", "{}").unwrap_err(),
        "Custom diff result has no replay marker"
    );
}

#[test]
fn a_shown_review_answers_with_its_marker() {
    let args = ShowCustomDiffArgs {
        snapshot_id: "diff_1".to_string(),
        title: "Moved function".to_string(),
        labels: vec![Some("Move".to_string()), None],
        sections: vec![
            SectionSides {
                old: true,
                new: true,
            },
            SectionSides {
                old: false,
                new: true,
            },
        ],
    };
    let answer = show_custom_diff(&args, "call-1", "diff_1", Ok(())).unwrap();
    assert_eq!(answer.get("ovim_custom_diff_id"), Some(&text("call-1")));
    assert_eq!(answer.get("sections"), Some(&number(2)));
    assert_eq!(answer.get("pairings"), Some(&number(1)));
    assert!(show_custom_diff(&args, "call-1", "diff_2", Ok(())).is_err());
    assert_eq!(
        show_custom_diff(&args, "call-1", "diff_1", Err("closed".to_string())).unwrap_err(),
        "closed"
    );
}

#[test]
fn tools_are_described_with_strict_schemas() {
    let read = read_diff_definition();
    assert_eq!(read.name, "read_diff");
    assert_eq!(read.side_effect, SideEffect::Read);
    assert_eq!(read.required_scope.file_scope, FileScope::Project);
    assert_eq!(
        read.input_schema.get("additionalProperties"),
        Some(&Json::Bool(false))
    );
    let limit = read
        .input_schema
        .get("properties")
        .unwrap()
        .get("limit")
        .unwrap();
    assert_eq!(limit.get("maximum"), Some(&number(200)));
    let show = show_custom_diff_definition();
    assert_eq!(show.name, "show_custom_diff");
    assert_eq!(show.side_effect, SideEffect::Navigation);
    assert_eq!(
        show.input_schema.get("required"),
        Some(&Json::List(vec![
            text("snapshot_id"),
            text("title"),
            text("pairings")
        ]))
    );
}

fn call(id: &str, name: &str) -> ToolCallInfo {
    ToolCallInfo {
        id: id.to_string(),
        name: name.to_string(),
        arguments: Json::Null,
    }
}

fn chat() -> AiChat {
    AiChat {
        messages: vec![
            ChatMessage {
                content: String::new(),
                tool_call_id: None,
                tool_calls: vec![
                    call("w", "explain_with_codebase"),
                    call("d", "show_custom_diff"),
                    call("o", "other"),
                ],
            },
            ChatMessage {
                content: "{\"ovim_custom_diff_id\":\"d\"}".to_string(),
                tool_call_id: Some("d".to_string()),
                tool_calls: vec![],
            },
        ],
        streaming_content: Some("partial".to_string()),
        streaming_thinking: None,
        waiting: false,
        tool_event_summaries: vec![(
            "e".to_string(),
            ToolEventSummary {
                kind: ToolSummaryKind::Error,
                label: "failed".to_string(),
                call: call("e", "show_custom_diff"),
            },
        )],
        expanded_tool_events: vec![],
        expanded_thinking: vec![4],
    }
}

#[test]
fn saved_reviews_are_offered_under_their_labels() {
    let mut editor = Editor::with_content("", NoClipboard::new());
    assert_eq!(editor.ai_chat_tool_replay_label("d"), None);
    editor.chat = Some(chat());
    assert_eq!(
        editor.ai_chat_tool_replay_label("w"),
        Some("Replay walkthrough")
    );
    assert_eq!(editor.ai_chat_tool_replay_label("d"), Some("Open diff"));
    assert_eq!(editor.ai_chat_tool_replay_label("o"), None);
    assert_eq!(editor.ai_chat_tool_replay_label("e"), None);
    assert_eq!(
        editor.ai_chat_tool_event_summary_parts("e"),
        Some((ToolSummaryKind::Error, "failed"))
    );
    assert_eq!(editor.replay_ai_chat_tool("w"), ReplayStep::Walkthrough);
    assert_eq!(editor.replay_ai_chat_tool("d"), ReplayStep::CustomDiff);
    assert_eq!(editor.replay_ai_chat_tool("o"), ReplayStep::Nothing);
    assert_eq!(
        editor.status_message(),
        "This tool result has no saved review"
    );
    assert!(editor.replay_custom_diff("d", Ok(())));
    assert!(!editor.replay_custom_diff("d", Err("gone".to_string())));
    assert_eq!(editor.status_message(), "gone");
    assert!(!editor.replay_custom_diff("w", Ok(())));
    editor.chat.as_mut().unwrap().waiting = true;
    assert!(editor.ai_chat_is_streaming());
    assert!(!editor.replay_custom_diff("d", Ok(())));
    assert_eq!(
        editor.status_message(),
        "Finish the active agent work before replaying a diff"
    );
}

#[test]
fn details_are_toggled() {
    let mut editor = Editor::with_content("", NoClipboard::new());
    editor.chat = Some(chat());
    assert!(!editor.ai_chat_is_tool_event_expanded("d"));
    editor.toggle_ai_chat_tool_event("d");
    assert!(editor.ai_chat_is_tool_event_expanded("d"));
    editor.toggle_ai_chat_tool_event("d");
    assert!(!editor.ai_chat_is_tool_event_expanded("d"));
    assert!(editor.ai_chat_is_thinking_expanded(4));
    assert!(!editor.ai_chat_is_thinking_expanded(5));
    assert_eq!(editor.ai_chat_streaming_content(), Some("partial"));
    assert_eq!(editor.ai_chat_streaming_thinking(), None);
}

fn written(json: &str) -> String {
    URL_SAFE_NO_PAD.encode(json)
}

#[test]
fn cursors_are_read_as_their_fields_are_written() {
    let cursor = PageCursor {
        snapshot_id: "x".to_string(),
        line_offset: 1,
        byte_offset: 2,
        file_offset: 3,
    };
    for json in [
        r#"{"snapshot_id":"x","line_offset":1,"byte_offset":2,"file_offset":3}"#,
        r#" { "file_offset" : 3 , "byte_offset" : 2 , "line_offset" : 1 , "snapshot_id" : "x" } "#,
        r#"{"extra":[1,{"a":2}],"snapshot_id":"\u0078","line_offset":1,"byte_offset":2,"file_offset":3}"#,
        r#"["x",1,2,3]"#,
    ] {
        assert_eq!(PageCursor::decode(&written(json), "x").unwrap(), cursor);
    }
    for json in [
        r#"{"snapshot_id":"x","line_offset":1,"line_offset":1,"byte_offset":2,"file_offset":3}"#,
        r#"{"snapshot_id":"x","line_offset":1,"byte_offset":2}"#,
        r#"{"snapshot_id":"x","line_offset":-1,"byte_offset":2,"file_offset":3}"#,
        r#"{"snapshot_id":7,"line_offset":1,"byte_offset":2,"file_offset":3}"#,
        r#"{"snapshot_id":"x","line_offset":1,"byte_offset":2,"file_offset":3} x"#,
        r#"{"snapshot_id":"x","line_offset":1,"byte_offset":2,"file_offset":3,}"#,
        r#"["x",1,2]"#,
        r#"["x",1,2,3,4]"#,
        r#""x""#,
    ] {
        assert_eq!(
            PageCursor::decode(&written(json), "x").unwrap_err(),
            "Invalid diff cursor"
        );
    }
}

#[test]
fn a_cursor_is_written_in_the_order_of_its_fields() {
    let cursor = PageCursor {
        snapshot_id: "a\"b\n".to_string(),
        line_offset: 10,
        byte_offset: 0,
        file_offset: 7,
    };
    assert_eq!(
        cursor.encode(),
        written(r#"{"snapshot_id":"a\"b\n","line_offset":10,"byte_offset":0,"file_offset":7}"#)
    );
}

#[test]
fn answers_read_through_hold_every_changed_line() {
    let long = "æ".repeat(MAX_PAGE_BYTES);
    let lines = ["first", long.as_str(), "", "last"];
    let snapshot = snapshot(&lines);
    let files = vec![object(vec![("path", text("anchor.txt"))])];
    let mut read = String::new();
    let mut next: Option<String> = None;
    let mut pages = 0;
    loop {
        let id = next.as_ref().map(|_| "diff_1");
        let asked = args(id, Some(2), next.clone());
        let answer = answer_read_diff(&asked, &snapshot, &vec![9], text("main"), &files).unwrap();
        assert_eq!(answer.get("snapshot_id"), Some(&text("diff_1")));
        assert_eq!(answer.get("base"), Some(&text("main")));
        assert_eq!(answer.get("total_changed_lines"), Some(&number(4)));
        let shown = if pages == 0 { 1 } else { 0 };
        assert!(matches!(answer.get("files"), Some(Json::List(f)) if f.len() == shown));
        let Some(Json::List(blocks)) = answer.get("blocks") else {
            panic!("no blocks");
        };
        for block in blocks {
            assert_eq!(block.get("kind"), Some(&text("added")));
            let content = block.get("content").unwrap().as_text().unwrap();
            assert!(content.len() <= MAX_PAGE_BYTES + 1);
            read.push_str(content);
            if block.get("partial_line") == Some(&Json::Bool(false)) {
                read.push('\n');
            }
        }
        pages += 1;
        let given = answer.get("next_cursor").unwrap().as_text();
        let given = given.map(str::to_string);
        assert_ne!(given, next);
        if given.is_none() {
            break;
        }
        next = given;
    }
    assert_eq!(pages, 4);
    assert_eq!(read, lines.join("\n") + "\n");
}

fn reference() -> Json {
    object(vec![
        ("block_id", text("removed_1")),
        ("offset", number(0)),
        ("count", number(1)),
    ])
}

fn request_with(section: Json) -> Json {
    object(vec![
        ("snapshot_id", text("s")),
        ("title", text("Review")),
        ("pairings", Json::List(vec![section])),
    ])
}

#[test]
fn section_schema_and_runtime_shape_agree() {
    for section in [
        object(vec![("old", reference())]),
        object(vec![("new", reference())]),
        object(vec![("old", reference()), ("new", reference())]),
        object(vec![("new", reference()), ("related_to", reference())]),
    ] {
        let related = section.get("related_to").is_some();
        let old = section.get("old").is_some();
        let given = ShowCustomDiffInput::from_input(&request_with(section)).unwrap();
        let parsed = &given.pairings[0];
        assert_eq!(parsed.related_to.is_some(), related);
        assert_eq!(parsed.old.is_some(), old);
        let shown = parsed.old.as_ref().or(parsed.new.as_ref()).unwrap();
        assert_eq!(shown.block_id, "removed_1");
        assert_eq!((shown.offset, shown.count), (Some(0), Some(1)));
        let args = given.request();
        assert_eq!(args.title, "Review");
        assert_eq!(args.labels, vec![None]);
        assert_eq!(args.sections[0].old, old);
    }
    for section in [
        object(vec![]),
        object(vec![("label", text("Deleted"))]),
        object(vec![("related_to", reference())]),
        object(vec![("old", Json::Null)]),
        object(vec![("old", reference()), ("kind", text("context"))]),
        object(vec![("old", reference()), ("text", text("invented"))]),
        object(vec![
            ("old", reference()),
            (
                "related_to",
                object(vec![("block_id", text("x")), ("count", number(0))]),
            ),
        ]),
    ] {
        assert!(ShowCustomDiffInput::from_input(&request_with(section)).is_err());
    }
}

#[test]
fn native_diff_tools_reject_unknown_arguments() {
    let result = ReadDiffArgs::from_input(&object(vec![("unexpected", Json::Bool(true))]));
    assert!(matches!(result, Err(message) if message.contains("unexpected")));
    let result = ShowCustomDiffInput::from_input(&object(vec![
        ("snapshot_id", text("x")),
        ("title", text("Review")),
        ("pairings", Json::List(vec![])),
        ("extra", Json::Bool(true)),
    ]));
    assert!(matches!(result, Err(message) if message.contains("extra")));
}

#[test]
fn page_requests_are_read_as_described() {
    let given = ReadDiffArgs::from_input(&object(vec![
        ("snapshot_id", text("diff_1")),
        ("limit", number(200)),
        ("cursor", text("c")),
    ]))
    .unwrap();
    assert_eq!(given.snapshot_id.as_deref(), Some("diff_1"));
    assert_eq!(given.limit, Some(200));
    assert_eq!(given.cursor.as_deref(), Some("c"));
    let none = ReadDiffArgs::from_input(&object(vec![])).unwrap();
    assert_eq!((none.snapshot_id, none.limit, none.cursor), (None, None, None));
    for (key, value) in [
        ("limit", number(0)),
        ("limit", number(201)),
        ("limit", Json::Number("1.5".to_string())),
        ("limit", Json::Number("99999999999999999999".to_string())),
        ("limit", text("5")),
        ("snapshot_id", text("")),
        ("cursor", Json::Null),
        ("cursor", text(&"x".repeat(513))),
    ] {
        assert_eq!(
            ReadDiffArgs::from_input(&object(vec![(key, value)])).unwrap_err(),
            format!("Invalid read_diff input: {key}")
        );
    }
    assert_eq!(
        ReadDiffArgs::from_input(&Json::Null).unwrap_err(),
        "Invalid read_diff input: object"
    );
}
