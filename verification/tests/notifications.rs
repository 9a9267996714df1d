use ovim_core::json::Json;
use ovim_core::lsp::notifications::{
    classify_notification, delivery_refusal, flush_incomplete_message, logged_message,
    progress_message, reply_to, retry_delay, shown_message, too_large_message,
    workspace_configuration_values, ContentChange, EditOutcome, FlushStep, LogLevel, LspDocuments,
    MessageKind, OpenOutcome, OpenStep, PendingChange, ProgressValue, Reply, SendOutcome,
    ServerNotice, ServerState,
};
use ovim_core::lsp::simple_diff::compute_simple_diff;
use ovim_core::lsp::{utf16_to_char_col, Position};

fn begin(title: &str) -> ProgressValue {
    ProgressValue::Begin {
        title: title.to_string(),
    }
}

fn shown(documents: &LspDocuments, token: &str) -> Option<String> {
    documents
        .progress
        .get("java")
        .and_then(|tokens| tokens.get(token))
        .cloned()
}

#[test]
fn progress_end_only_clears_its_own_token() {
    let mut documents = LspDocuments::new();
    documents.note_progress("java", "index", &begin("Indexing"));
    documents.note_progress("java", "2", &begin("Building"));
    assert!(shown(&documents, "index").is_some());
    documents.note_progress("java", "index", &ProgressValue::End { message: None });
    assert_eq!(shown(&documents, "index"), None);
    assert_eq!(shown(&documents, "2"), Some("java: Building".to_string()));
}

#[test]
fn progress_reports_prefer_messages_to_percentages() {
    let report = |message: Option<&str>, percentage| ProgressValue::Report {
        message: message.map(str::to_string),
        percentage,
    };
    assert_eq!(
        progress_message("java", &report(Some("half"), Some(50))).as_deref(),
        Some("java: half")
    );
    assert_eq!(
        progress_message("java", &report(None, Some(50))).as_deref(),
        Some("java: 50%")
    );
    assert_eq!(progress_message("java", &report(None, None)), None);
    assert_eq!(
        progress_message("java", &ProgressValue::End { message: None }).as_deref(),
        Some("java: Complete")
    );
}

fn pending(documents: &LspDocuments, uri: &str) -> Option<(String, i32)> {
    documents
        .debouncers
        .get(uri)
        .and_then(|d| d.pending.as_ref())
        .map(|p| (p.text.clone(), p.version))
}

#[test]
fn flush_keeps_debouncer_entry_without_retrying_absent_servers() {
    let mut documents = LspDocuments::new();
    let uri = "file:///tmp/ovim-orphan-test.rs";
    documents.did_change(uri, "rust", "v1\n".to_string(), false, 1);
    documents.did_change(uri, "rust", "v2\n".to_string(), false, 2);
    assert_eq!(pending(&documents, uri), Some(("v2\n".to_string(), 2)));

    // With no servers registered there is nothing to retry.
    let change = documents.take_pending(uri).unwrap();
    let step = documents.finish_flush(uri, change, &vec![], 3);
    assert_eq!(step, FlushStep::Dropped);

    // The entry must survive the flush attempt, without a payload.
    assert!(documents.debouncers.contains(uri));
    assert_eq!(pending(&documents, uri), None);
    // The undelivered version must not be claimed.
    assert_eq!(documents.sent.get(uri), None);
}

#[test]
fn flush_does_not_retry_a_failed_server_transport() {
    let mut documents = LspDocuments::new();
    let uri = "file:///tmp/ovim-dead-server.rs";
    documents.did_change(uri, "rust", "fn main() {}\n".to_string(), false, 1);
    let failed = Some(ServerState::Failed("exit 0".to_string()));
    assert_eq!(
        delivery_refusal("rust", &failed).as_deref(),
        Some("LSP server rust failed: exit 0")
    );
    let change = documents.take_pending(uri).unwrap();
    let step = documents.finish_flush(uri, change, &vec![SendOutcome::Refused], 2);
    assert_eq!(step, FlushStep::Dropped);
    assert_eq!(pending(&documents, uri), None);
    assert_eq!(documents.debouncers.get(uri).unwrap().retry_attempts, 0);
}

#[test]
fn did_change_without_baseline_drops_server_texts() {
    let mut documents = LspDocuments::new();
    let uri = "file:///tmp/ovim-force-full.rs";
    let other_uri = "file:///tmp/ovim-other.rs";
    documents.note_sent(uri, "rust", "stale\n");
    documents.note_sent(other_uri, "rust", "keep\n");
    documents.did_change(uri, "rust", "fresh\n".to_string(), false, 1);
    let change = documents
        .content_change(uri, "rust", "fresh\n", true)
        .unwrap();
    assert!(
        change.range.is_none(),
        "without a baseline the whole text is sent"
    );
    assert!(
        documents.content_change(other_uri, "rust", "keep\n", true).is_none(),
        "baselines for other documents must be untouched"
    );
}

/// Applies a change to a text the way a server would (UTF-16 positions, lines
/// split at line feeds).
fn apply_content_change(mirror: &str, change: &ContentChange) -> String {
    let range = match change.range {
        Some(range) => range,
        None => return change.text.clone(),
    };
    let lines: Vec<&str> = mirror.split('\n').collect();
    let offset_of = |p: Position| -> usize {
        let mut offset = 0;
        for l in lines.iter().take(p.line as usize) {
            offset += l.len() + 1;
        }
        let line_text = lines.get(p.line as usize).copied().unwrap_or("");
        let char_col = utf16_to_char_col(line_text, p.character);
        offset
            + line_text
                .chars()
                .take(char_col)
                .map(|c| c.len_utf8())
                .sum::<usize>()
    };
    let start = offset_of(range.start).min(mirror.len());
    let end = offset_of(range.end).min(mirror.len());
    format!("{}{}{}", &mirror[..start], change.text, &mirror[end..])
}

#[test]
fn incremental_flush_stream_reconstructs_editor_content() {
    let uri = "file:///tmp/ovim-sync-capture.rs";
    let v0 = "fn compute(x: u32) -> u32 {\n    x * 2\n}\n";
    let v1 = "fn compute(x: u32) -> u32 {\n    x * 2 + 1\n}\n";
    let v2 = "fn compute(x: u32) -> u32 {\n    x * \"oops\"\n}\n";
    let v3a = "fn compute(x: u32) -> u32 {\n    x * \"oops\"\n}\n\nfn main() {}\n";
    let v3 = "fn compute(x: u32) -> u32 {\n    x + 40\n}\n\nfn main() {}\n";
    let mut documents = LspDocuments::new();
    assert_eq!(
        documents.begin_open(uri, 1, v0.len(), 1_000_000),
        OpenStep::Claimed
    );
    assert!(documents
        .finish_open(uri, "rust", 1, v0, OpenOutcome::Sent)
        .is_ok());
    let mut mirror = v0.to_string();
    let mut last_version = 1;
    let mut sends = 0;
    for edits in [vec![v1], vec![v2], vec![v3a, v3]] {
        for text in edits {
            documents.did_change(uri, "rust", text.to_string(), true, 1);
        }
        let change = documents.take_pending(uri).unwrap();
        assert!(change.version > last_version);
        last_version = change.version;
        let sent = documents
            .content_change(uri, "rust", &change.text, true)
            .unwrap();
        assert!(sent.range.is_some());
        mirror = apply_content_change(&mirror, &sent);
        assert_eq!(mirror, change.text);
        documents.note_sent(uri, "rust", &change.text);
        let step = documents.finish_flush(uri, change, &vec![SendOutcome::Sent], 9);
        assert_eq!(step, FlushStep::Flushed);
        sends += 1;
    }
    assert_eq!(sends, 3);
    assert_eq!(mirror, v3);
    assert_eq!(documents.sent.get(uri), Some(&last_version));
}

#[test]
fn did_open_skips_when_uri_already_claimed() {
    let mut documents = LspDocuments::new();
    let uri = "file:///tmp/ovim-already-open.rs";
    documents.versions.insert(uri, 7);
    assert_eq!(
        documents.begin_open(uri, 1, 12, 1_000_000),
        OpenStep::Duplicate
    );
    assert_eq!(documents.versions.get(uri), Some(&7));
}

#[test]
fn did_open_broadcast_skips_when_uri_already_claimed() {
    let mut documents = LspDocuments::new();
    let uri = "file:///tmp/ovim-already-broadcast.rs";
    documents.versions.insert(uri, 3);
    assert_eq!(
        documents.begin_open(uri, 1, 12, 1_000_000),
        OpenStep::Duplicate
    );
    assert_eq!(documents.versions.get(uri), Some(&3));
}

#[test]
fn did_open_rolls_back_claim_on_missing_server() {
    let mut documents = LspDocuments::new();
    let uri = "file:///tmp/ovim-rollback.rs";
    assert_eq!(
        documents.begin_open(uri, 1, 1, 1_000_000),
        OpenStep::Claimed
    );
    let result = documents.finish_open(uri, "no-such-language", 1, "x", OpenOutcome::NoServer);
    assert_eq!(
        result.unwrap_err(),
        "No server for language: no-such-language"
    );
    assert!(!documents.versions.contains(uri));
    assert_eq!(
        documents.begin_open(uri, 1, 1, 1_000_000),
        OpenStep::Claimed
    );
    let failed = OpenOutcome::Failed("timed out".to_string());
    assert_eq!(
        documents.finish_open(uri, "rust", 1, "x", failed).unwrap_err(),
        "timed out"
    );
    assert!(!documents.versions.contains(uri));
}

#[test]
fn broadcast_opens_remember_which_servers_were_told() {
    let mut documents = LspDocuments::new();
    let uri = "file:///tmp/group.ts";
    assert_eq!(documents.begin_open(uri, 4, 1, 10), OpenStep::Claimed);
    let servers = vec![("ts".to_string(), true), ("ts:lint".to_string(), false)];
    assert!(documents
        .finish_open_broadcast(uri, "ts", 4, "x", &servers)
        .is_ok());
    assert!(documents.content_change(uri, "ts", "x", true).is_none());
    assert!(documents.content_change(uri, "ts:lint", "x", true).is_some());
    assert_eq!(documents.sent.get(uri), Some(&4));
    let other = "file:///tmp/other.ts";
    documents.begin_open(other, 1, 1, 10);
    assert_eq!(
        documents
            .finish_open_broadcast(other, "ts", 1, "x", &vec![])
            .unwrap_err(),
        "No servers for language 'ts' matched document file:///tmp/other.ts"
    );
    assert!(!documents.versions.contains(other));
    assert_eq!(documents.begin_open(other, 1, 11, 10), OpenStep::TooLarge);
    assert_eq!(
        too_large_message(11, 10),
        "Document too large: 11 bytes (max 10 bytes)"
    );
}

#[test]
fn timed_out_changes_are_sent_again_later_and_later() {
    let mut documents = LspDocuments::new();
    let uri = "file:///tmp/slow.rs";
    documents.did_change(uri, "rust", "v1".to_string(), true, 1);
    let mut delays = vec![];
    for _ in 0..8 {
        let change = documents.take_pending(uri).unwrap();
        let results = vec![SendOutcome::Sent, SendOutcome::TimedOut];
        match documents.finish_flush(uri, change, &results, 2) {
            FlushStep::Again(Some(ms)) => delays.push(ms),
            other => panic!("{other:?}"),
        }
    }
    assert_eq!(
        delays,
        vec![500, 1_000, 2_000, 4_000, 8_000, 16_000, 30_000, 30_000]
    );
    assert_eq!(retry_delay(255), 30_000);
    assert_eq!(
        flush_incomplete_message(uri),
        "didChange flush incomplete for file:///tmp/slow.rs (queued for retry)"
    );
}

#[test]
fn a_newer_change_is_not_overwritten_by_a_retry() {
    let mut documents = LspDocuments::new();
    let uri = "file:///tmp/a.rs";
    documents.did_change(uri, "rust", "v1".to_string(), true, 1);
    let change = documents.take_pending(uri).unwrap();
    documents.did_change(uri, "rust", "v2".to_string(), true, 2);
    let step = documents.finish_flush(uri, change, &vec![SendOutcome::TimedOut], 3);
    assert_eq!(step, FlushStep::Again(None));
    assert_eq!(pending(&documents, uri), Some(("v2".to_string(), 2)));
    let unknown = PendingChange {
        text: "x".to_string(),
        version: 1,
    };
    assert_eq!(
        documents.finish_flush("file:///no", unknown, &vec![SendOutcome::InSync], 3),
        FlushStep::Flushed
    );
}

#[test]
fn closing_forgets_a_document_and_no_other() {
    let mut documents = LspDocuments::new();
    for uri in ["file:///a", "file:///b"] {
        documents.begin_open(uri, 1, 1, 10);
        documents
            .finish_open(uri, "rust", 1, "x", OpenOutcome::Sent)
            .unwrap();
        documents.did_change(uri, "rust", "y".to_string(), true, 5);
    }
    documents.close("file:///a");
    assert!(!documents.versions.contains("file:///a"));
    assert!(documents.take_pending("file:///a").is_none());
    assert_eq!(documents.versions.get("file:///b"), Some(&2));
    assert_eq!(documents.language_of("file:///b"), Some("rust"));
    assert_eq!(documents.edits.get("file:///b"), Some(&5));
}

#[test]
fn starting_servers_can_be_sent_changes() {
    for state in [
        ServerState::Ready,
        ServerState::Spawning,
        ServerState::Initializing,
    ] {
        assert_eq!(delivery_refusal("rust", &Some(state)), None);
    }
    assert_eq!(
        delivery_refusal("rust", &None).as_deref(),
        Some("No active server for language: rust")
    );
    assert_eq!(
        delivery_refusal("rust", &Some(ServerState::ShuttingDown)).as_deref(),
        Some("LSP server rust is shutting down")
    );
    assert_eq!(
        delivery_refusal("rust", &Some(ServerState::Terminated)).as_deref(),
        Some("LSP server rust has terminated")
    );
}

#[test]
fn differences_are_as_small_as_one_replacement_can_be() {
    let (range, text) = compute_simple_diff("a😀b\nc", "a😀x\nc").unwrap();
    assert_eq!(range.start, Position::new(0, 3));
    assert_eq!(range.end, Position::new(0, 4));
    assert_eq!(text, "x");
    assert!(compute_simple_diff("same", "same").is_none());
    let (range, text) = compute_simple_diff("aa", "aaa").unwrap();
    assert_eq!(range.start, range.end);
    assert_eq!(text, "a");
}

fn text(s: &str) -> Json {
    Json::Text(s.to_string())
}

fn object(fields: Vec<(&str, Json)>) -> Json {
    Json::Object(
        fields
            .into_iter()
            .map(|(key, value)| (key.to_string(), value))
            .collect(),
    )
}

fn globals() -> Json {
    Json::List(vec![text("vim"), text("ovim")])
}

fn lua_host_settings() -> Json {
    object(vec![(
        "Lua",
        object(vec![
            ("runtime", object(vec![("version", text("Lua 5.4"))])),
            ("diagnostics", object(vec![("globals", globals())])),
        ]),
    )])
}

fn items(sections: Vec<Option<&str>>) -> Json {
    let items = sections
        .into_iter()
        .map(|section| match section {
            Some(name) => object(vec![("section", text(name))]),
            None => object(vec![]),
        })
        .collect();
    object(vec![("items", Json::List(items))])
}

#[test]
fn settings_project_onto_requested_sections() {
    let settings = lua_host_settings();
    let params = items(vec![
        Some("Lua"),
        Some("Lua.diagnostics"),
        Some("unmanaged"),
    ]);
    let values = workspace_configuration_values(Some(&settings), Some(&params));

    assert_eq!(
        values[0].get("runtime").unwrap().get("version"),
        Some(&text("Lua 5.4"))
    );
    assert_eq!(
        values[0].get("diagnostics").unwrap().get("globals"),
        Some(&globals())
    );
    assert_eq!(values[1].get("globals"), Some(&globals()));
    assert_eq!(values[2], Json::Null);
}

#[test]
fn sectionless_items_receive_the_full_settings_tree() {
    let settings = lua_host_settings();
    let params = items(vec![None]);
    assert_eq!(
        workspace_configuration_values(Some(&settings), Some(&params)),
        vec![settings]
    );
}

#[test]
fn servers_without_settings_retain_null_configuration_responses() {
    let params = items(vec![Some("rust")]);
    assert_eq!(
        workspace_configuration_values(None, Some(&params)),
        vec![Json::Null]
    );
}

#[test]
fn requests_of_servers_are_answered() {
    let none = EditOutcome::Missing;
    let reply = |method: &str, edit: &EditOutcome| reply_to(method, true, edit, None, None);
    assert!(reply("workspace/applyEdit", &none).is_none());
    assert!(matches!(
        reply("workspace/applyEdit", &EditOutcome::Queued),
        Some(Reply::Applied)
    ));
    assert!(matches!(
        reply(
            "workspace/applyEdit",
            &EditOutcome::Unreadable("bad".to_string())
        ),
        Some(Reply::Error { code: -32700, message }) if message == "Failed to parse parameters: bad"
    ));
    assert!(matches!(
        reply(
            "workspace/applyEdit",
            &EditOutcome::NotQueued("full".to_string())
        ),
        Some(Reply::Error { code: -32603, message }) if message == "Failed to queue edit: full"
    ));
    for method in [
        "client/registerCapability",
        "client/unregisterCapability",
        "window/showMessageRequest",
        "window/workDoneProgress/create",
    ] {
        assert!(matches!(
            reply(method, &none),
            Some(Reply::Value(Json::Null))
        ));
    }
    assert!(matches!(
        reply("custom/thing", &none),
        Some(Reply::Error { code: -32601, message }) if message == "Method not supported: custom/thing"
    ));
    let params = items(vec![Some("rust")]);
    assert!(matches!(
        reply_to("workspace/configuration", true, &none, None, Some(&params)),
        Some(Reply::Value(Json::List(values))) if values == vec![Json::Null]
    ));
    assert!(reply_to("custom/thing", false, &none, None, None).is_none());
}

#[test]
fn notices_of_servers_are_told_apart() {
    assert_eq!(
        classify_notification("textDocument/publishDiagnostics"),
        ServerNotice::PublishDiagnostics
    );
    assert_eq!(classify_notification("window/showMessage"), ServerNotice::ShowMessage);
    assert_eq!(classify_notification("window/logMessage"), ServerNotice::LogMessage);
    assert_eq!(classify_notification("$/progress"), ServerNotice::Progress);
    assert_eq!(classify_notification("telemetry/event"), ServerNotice::Unknown);
}

#[test]
fn messages_of_servers_are_logged_by_their_rank() {
    assert!(shown_message("rust", MessageKind::Error, "boom", false).is_none());
    let shown = shown_message("rust", MessageKind::Warning, "careful", true).unwrap();
    assert_eq!(shown.level, LogLevel::Warning);
    assert_eq!(shown.source, "rust:LSP Warning");
    assert_eq!(shown.text, "WARN: careful");
    let other = shown_message("rust", MessageKind::Other, "?", true).unwrap();
    assert_eq!(other.level, LogLevel::Info);
    assert_eq!(other.source, "rust:LSP");
    let logged = logged_message("rust", MessageKind::Log, "indexing");
    assert_eq!(logged.level, LogLevel::Debug);
    assert_eq!(logged.source, "LSP:rust:LOG");
    assert_eq!(logged.text, "indexing");
}

#[test]
fn versions_sent_never_overtake_the_document() {
    let mut documents = LspDocuments::new();
    for (k, word) in ["a", "b", "c"].iter().enumerate() {
        let version = documents.did_change("file:///a", "rust", word.to_string(), true, 1);
        assert_eq!(version, k as i32 + 1);
        let change = documents.take_pending("file:///a").unwrap();
        documents.finish_flush("file:///a", change, &vec![SendOutcome::Sent], 2);
        assert_eq!(documents.sent.get("file:///a"), documents.versions.get("file:///a"));
    }
}
