use ovim_core::editor::clipboard::{Clipboard, ClipboardBackend};
use ovim_core::editor::register::{RegisterManager, RegisterType};
use std::sync::{Arc, Mutex};

#[derive(Debug, Default)]
struct FakeClipboardState {
    text: String,
    reads: usize,
    writes: Vec<String>,
    unavailable: bool,
}

#[derive(Debug, Clone)]
struct FakeClipboard {
    state: Arc<Mutex<FakeClipboardState>>,
}

impl FakeClipboard {
    fn new(text: &str) -> Self {
        FakeClipboard {
            state: Arc::new(Mutex::new(FakeClipboardState {
                text: text.to_owned(),
                ..FakeClipboardState::default()
            })),
        }
    }
}

impl ClipboardBackend for FakeClipboard {
    fn read(&mut self) -> Option<String> {
        let mut state = self.state.lock().unwrap();
        state.reads += 1;
        if state.unavailable {
            None
        } else {
            Some(state.text.clone())
        }
    }

    fn write(&mut self, text: &str) -> bool {
        let mut state = self.state.lock().unwrap();
        state.writes.push(text.to_owned());
        if state.unavailable {
            false
        } else {
            state.text = text.to_owned();
            true
        }
    }
}

#[test]
fn standalone_operations_synchronize_immediately() {
    let backend = FakeClipboard::new("external");
    let mut clipboard = Clipboard::with_backend(backend.clone());
    assert_eq!(clipboard.read(), "external");
    clipboard.write("local".into());
    assert_eq!(backend.state.lock().unwrap().text, "local");
    backend.state.lock().unwrap().text = "changed".into();
    assert_eq!(clipboard.read(), "changed");
    assert_eq!(backend.state.lock().unwrap().reads, 2);
}

#[test]
fn empty_execution_does_no_io() {
    let backend = FakeClipboard::new("external");
    let mut clipboard = Clipboard::with_backend(backend.clone());
    clipboard.begin_execution();
    clipboard.end_execution();
    let state = backend.state.lock().unwrap();
    assert_eq!(state.reads, 0);
    assert!(state.writes.is_empty());
}

#[test]
fn writes_are_local_until_outer_execution_completes() {
    let backend = FakeClipboard::new("external");
    let mut clipboard = Clipboard::with_backend(backend.clone());
    clipboard.begin_execution();
    clipboard.write("first".into());
    clipboard.begin_execution();
    assert_eq!(clipboard.read(), "first");
    clipboard.write("final".into());
    clipboard.end_execution();
    assert!(backend.state.lock().unwrap().writes.is_empty());
    assert_eq!(clipboard.read(), "final");
    clipboard.end_execution();
    let state = backend.state.lock().unwrap();
    assert_eq!(state.reads, 0);
    assert_eq!(state.writes, ["final"]);
}

#[test]
fn reads_share_lazy_snapshot_then_refresh_in_next_execution() {
    let backend = FakeClipboard::new("external");
    let mut clipboard = Clipboard::with_backend(backend.clone());
    clipboard.begin_execution();
    assert_eq!(clipboard.read(), "external");
    backend.state.lock().unwrap().text = "changed".into();
    assert_eq!(clipboard.read(), "external");
    clipboard.end_execution();
    clipboard.begin_execution();
    assert_eq!(clipboard.read(), "changed");
    clipboard.end_execution();
    let state = backend.state.lock().unwrap();
    assert_eq!(state.reads, 2);
    assert!(state.writes.is_empty());
}

#[test]
fn external_boundary_publishes_prior_writes_and_refreshes_reads() {
    let backend = FakeClipboard::new("external");
    let mut clipboard = Clipboard::with_backend(backend.clone());
    clipboard.begin_execution();
    clipboard.write("before command".into());
    clipboard.flush();
    assert_eq!(backend.state.lock().unwrap().text, "before command");
    backend.state.lock().unwrap().text = "from command".into();
    clipboard.invalidate_snapshot();
    assert_eq!(clipboard.read(), "from command");
    clipboard.write("after command".into());
    clipboard.end_execution();
    let state = backend.state.lock().unwrap();
    assert_eq!(state.reads, 1);
    assert_eq!(state.writes, ["before command", "after command"]);
}

#[test]
fn unavailable_backend_uses_fallback_without_retrying_stale_writes() {
    let backend = FakeClipboard::new("external");
    let mut clipboard = Clipboard::with_backend(backend.clone());
    // Successful reads also seed fallback for subsequent unavailability.
    assert_eq!(clipboard.read(), "external");
    backend.state.lock().unwrap().unavailable = true;
    clipboard.begin_execution();
    assert_eq!(clipboard.read(), "external");
    clipboard.write("local".into());
    clipboard.end_execution();
    clipboard.begin_execution();
    assert_eq!(clipboard.read(), "local");
    clipboard.end_execution();
    assert_eq!(backend.state.lock().unwrap().writes, ["local"]);
}

#[test]
fn invalidation_cannot_discard_pending_local_content() {
    let backend = FakeClipboard::new("external");
    let mut clipboard = Clipboard::with_backend(backend.clone());
    clipboard.begin_execution();
    clipboard.write("local".into());
    clipboard.invalidate_snapshot();
    assert_eq!(clipboard.read(), "local");
    clipboard.end_execution();
    assert_eq!(backend.state.lock().unwrap().text, "local");
}

#[test]
fn clone_does_not_inherit_pending_effects_or_execution_depth() {
    let backend = FakeClipboard::new("external");
    let mut clipboard = Clipboard::with_backend(backend.clone());
    clipboard.begin_execution();
    clipboard.write("original".into());
    let mut cloned = clipboard.fork(backend.clone());
    cloned.begin_execution();
    cloned.end_execution();
    assert!(backend.state.lock().unwrap().writes.is_empty());
    clipboard.end_execution();
    assert_eq!(backend.state.lock().unwrap().writes, ["original"]);
    backend.state.lock().unwrap().unavailable = true;
    assert_eq!(cloned.read(), "original");
}

#[test]
fn clipboard_remains_send_and_sync() {
    fn assert_send_sync<T: Send + Sync>() {}
    assert_send_sync::<Clipboard<FakeClipboard>>();
    assert_send_sync::<RegisterManager<FakeClipboard>>();
}

#[test]
fn register_storage_operations_do_not_access_external_clipboard() {
    let backend = FakeClipboard::new("external");
    let mut registers = RegisterManager::with_clipboard_backend(backend.clone());
    registers.yank_with_type("line\n".into(), RegisterType::Line);
    assert_eq!(registers.get_with_type(Some('0')).1, RegisterType::Line);
    registers.delete_with_type("old\n".into(), RegisterType::Line);
    registers.delete_with_type("new\n".into(), RegisterType::Line);
    registers.delete("small".into());
    assert_eq!(registers.get(Some('1')), "new\n");
    assert_eq!(registers.get(Some('2')), "old\n");
    assert_eq!(registers.get(Some('-')), "small");
    assert_eq!(registers.get(Some('0')), "line\n");
    registers.set(Some('a'), "first".into());
    registers.set(Some('A'), "second".into());
    assert_eq!(registers.get(Some('a')), "firstsecond");
    registers.set(Some('_'), "discarded".into());
    assert_eq!(registers.get(Some('_')), "");
    assert_eq!(registers.get_default(), "small");
    registers.set_current_file("file.rs".into());
    registers.set(Some('%'), "ignored".into());
    assert_eq!(registers.get(Some('%')), "file.rs");
    let state = backend.state.lock().unwrap();
    assert_eq!(state.reads, 0);
    assert!(state.writes.is_empty());
}

#[test]
fn clipboard_register_aliases_and_inspection_observe_pending_writes() {
    let backend = FakeClipboard::new("external");
    let mut registers = RegisterManager::with_clipboard_backend(backend.clone());
    registers.begin_execution();
    registers.set_with_type(Some('+'), "local\n".into(), RegisterType::Line);
    assert_eq!(registers.get(Some('*')), "local\n");
    // Preserve existing explicit clipboard register type semantics.
    assert_eq!(
        registers.get_with_type(Some('+')).1,
        RegisterType::Character
    );
    assert!(registers
        .list_registers()
        .contains(&("\"+".into(), "local^J".into())));
    assert!(backend.state.lock().unwrap().writes.is_empty());
    registers.end_execution();
    let state = backend.state.lock().unwrap();
    assert_eq!(state.reads, 0);
    assert_eq!(state.writes, ["local\n"]);
}

#[test]
fn deletions_push_older_ones_down_the_numbered_registers() {
    let mut registers = RegisterManager::with_clipboard_backend(FakeClipboard::new(""));
    for n in 1..=10 {
        registers.delete_with_type(format!("line {n}\n"), RegisterType::Line);
    }
    assert_eq!(registers.get(Some('1')), "line 10\n");
    assert_eq!(registers.get(Some('9')), "line 2\n");
}

#[test]
fn owned_guards_complete_original_state_after_clipboard_is_dropped() {
    let backend = FakeClipboard::new("external");
    let mut clipboard = Clipboard::with_backend(backend.clone());
    clipboard.begin_execution();
    clipboard.write("first".into());
    clipboard.begin_execution();
    clipboard.write("final".into());
    // Whoever opened the scopes owns what is left of them.
    let mut owner = clipboard;
    owner.end_execution();
    assert!(backend.state.lock().unwrap().writes.is_empty());
    owner.end_execution();
    assert_eq!(backend.state.lock().unwrap().writes, ["final"]);
}

#[test]
fn new_registers_are_empty_and_have_no_clipboard() {
    let mut registers = RegisterManager::new();
    assert_eq!(registers.get(None), "");
    assert_eq!(registers.get(Some('+')), "");
    registers.yank("kept".to_owned());
    assert_eq!(registers.get(None), "kept");
    assert_eq!(registers.get_default_with_type(), ("kept", RegisterType::Character));
}
