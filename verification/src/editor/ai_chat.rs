//! What the editor shows of a chat with an agent.
use crate::ai::custom_diff::{custom_diff_replay_id, marker_of, result_body};
use crate::editor::clipboard::ClipboardBackend;
use crate::editor::review::with_status;
use crate::editor::{Ed, Editor};
use crate::fmt::opt_view;
use crate::json::Json;
use crate::text::same_text;
use crate::unicode::views;
use vstd::prelude::*;

verus! {

/// How a tool call ended.
#[derive(Debug, Clone, Copy, PartialEq, Eq, Structural)]
pub enum ToolSummaryKind {
    Success,
    Error,
}

/// A call of a tool.
#[derive(Debug)]
pub struct ToolCallInfo {
    pub id: String,
    pub name: String,
    pub arguments: Json,
}

/// What is shown of a tool call that ended.
#[derive(Debug)]
pub struct ToolEventSummary {
    pub kind: ToolSummaryKind,
    pub label: String,
    pub call: ToolCallInfo,
}

/// A message of a chat.
#[derive(Debug)]
pub struct ChatMessage {
    pub content: String,
    /// The call that the message is the result of
    pub tool_call_id: Option<String>,
    pub tool_calls: Vec<ToolCallInfo>,
}

/// A chat.
#[derive(Debug)]
pub struct AiChat {
    pub messages: Vec<ChatMessage>,
    /// What has come in so far of the answer
    pub streaming_content: Option<String>,
    pub streaming_thinking: Option<String>,
    pub waiting: bool,
    /// Summaries by the ids of their calls
    pub tool_event_summaries: Vec<(String, ToolEventSummary)>,
    pub expanded_tool_events: Vec<String>,
    pub expanded_thinking: Vec<u64>,
}

/// A model of a chat.
pub ghost struct Chat {
    pub messages: Seq<ChatMessage>,
    pub content: Option<Seq<char>>,
    pub thinking: Option<Seq<char>>,
    pub waiting: bool,
    pub summaries: Seq<(String, ToolEventSummary)>,
    /// The calls whose details are shown
    pub expanded: Set<Seq<char>>,
    /// The messages whose thoughts are shown
    pub thoughts: Set<u64>,
}

impl AiChat {
    pub open spec fn model(self) -> Chat {
        Chat {
            messages: self.messages@,
            content: opt_view(self.streaming_content),
            thinking: opt_view(self.streaming_thinking),
            waiting: self.waiting,
            summaries: self.tool_event_summaries@,
            expanded: views(self.expanded_tool_events@).to_set(),
            thoughts: self.expanded_thinking@.to_set(),
        }
    }
}

pub open spec fn chat_model(c: Option<AiChat>) -> Option<Chat> {
    match c {
        Some(c) => Some(c.model()),
        None => None,
    }
}

/// The summary of a call, from the `k`th on.
pub open spec fn summary_of(list: Seq<(String, ToolEventSummary)>, id: Seq<char>, k: int) -> Option<
    ToolEventSummary,
>
    decreases list.len() - k,
{
    if k < 0 || k >= list.len() {
        None
    } else if list[k].0@ == id {
        Some(list[k].1)
    } else {
        summary_of(list, id, k + 1)
    }
}

/// The call with an id, from the `k`th on.
pub open spec fn call_of(calls: Seq<ToolCallInfo>, id: Seq<char>, k: int) -> Option<ToolCallInfo>
    decreases calls.len() - k,
{
    if k < 0 || k >= calls.len() {
        None
    } else if calls[k].id@ == id {
        Some(calls[k])
    } else {
        call_of(calls, id, k + 1)
    }
}

/// The call with an id in the messages from the `k`th on.
pub open spec fn called_in(messages: Seq<ChatMessage>, id: Seq<char>, k: int) -> Option<ToolCallInfo>
    decreases messages.len() - k,
{
    if k < 0 || k >= messages.len() {
        None
    } else {
        match call_of(messages[k].tool_calls@, id, 0) {
            Some(call) => Some(call),
            None => called_in(messages, id, k + 1),
        }
    }
}

/// A message is the result of a call and speaks of a saved review.
pub open spec fn tells_review(m: ChatMessage, id: Seq<char>) -> bool {
    opt_view(m.tool_call_id) == Some(id) && marker_of(result_body(m.content@)) is Some
}

impl Ed {
    pub open spec fn summary(self, id: Seq<char>) -> Option<ToolEventSummary> {
        match self.chat {
            Some(c) => summary_of(c.summaries, id, 0),
            None => None,
        }
    }

    pub open spec fn messages(self) -> Seq<ChatMessage> {
        match self.chat {
            Some(c) => c.messages,
            None => Seq::empty(),
        }
    }

    /// The call with an id: that of its summary, or else one of the messages.
    pub open spec fn call(self, id: Seq<char>) -> Option<ToolCallInfo> {
        match self.summary(id) {
            Some(s) => Some(s.call),
            None => called_in(self.messages(), id, 0),
        }
    }

    /// What a saved review of a call is offered under.
    pub open spec fn replay_label(self, id: Seq<char>) -> Option<Seq<char>> {
        let summary = self.summary(id);
        if summary is Some && (summary->0).kind is Error {
            None
        } else {
            match self.call(id) {
                None => None,
                Some(call) => if call.name@ == "explain_with_codebase"@ {
                    Some("Replay walkthrough"@)
                } else if call.name@ == "show_custom_diff"@ && (summary is Some || exists|i: int|
                    0 <= i < self.messages().len() && tells_review(
                        #[trigger] self.messages()[i],
                        id,
                    )) {
                    Some("Open diff"@)
                } else {
                    None
                },
            }
        }
    }
}

/// What opening a saved review of a call takes.
#[derive(Debug, Clone, Copy, PartialEq, Eq, Structural)]
pub enum ReplayStep {
    Walkthrough,
    CustomDiff,
    Nothing,
}

impl<B: ClipboardBackend> Editor<B> {
    /// What has come in so far of the answer.
    pub fn ai_chat_streaming_content(&self) -> (res: Option<&str>)
        ensures
            match res {
                Some(s) => self.model().chat matches Some(c) && c.content == Some(s@),
                None => self.model().chat matches Some(c) ==> c.content is None,
            },
    {
        match &self.chat {
            Some(chat) => match &chat.streaming_content {
                Some(s) => Some(s.as_str()),
                None => None,
            },
            None => None,
        }
    }

    /// What has come in so far of the thoughts.
    pub fn ai_chat_streaming_thinking(&self) -> (res: Option<&str>)
        ensures
            match res {
                Some(s) => self.model().chat matches Some(c) && c.thinking == Some(s@),
                None => self.model().chat matches Some(c) ==> c.thinking is None,
            },
    {
        match &self.chat {
            Some(chat) => match &chat.streaming_thinking {
                Some(s) => Some(s.as_str()),
                None => None,
            },
            None => None,
        }
    }

    /// Whether an answer is coming in.
    pub fn ai_chat_is_streaming(&self) -> (res: bool)
        ensures
            res == (self.model().chat matches Some(c) && c.waiting && c.content is Some),
    {
        match &self.chat {
            Some(chat) => chat.waiting && chat.streaming_content.is_some(),
            None => false,
        }
    }

    /// Whether the agent is at work.
    pub fn ai_chat_waiting(&self) -> (res: bool)
        ensures
            res == (self.model().chat matches Some(c) && c.waiting),
    {
        match &self.chat {
            Some(chat) => chat.waiting,
            None => false,
        }
    }

    /// The summary of a call that ended.
    pub fn ai_chat_tool_event_summary(&self, tool_call_id: &str) -> (res: Option<&ToolEventSummary>)
        ensures
            match res {
                Some(s) => self.model().summary(tool_call_id@) == Some(*s),
                None => self.model().summary(tool_call_id@) is None,
            },
    {
        if let Some(chat) = &self.chat {
            let list = &chat.tool_event_summaries;
            let mut k: usize = 0;
            while k < list.len()
                invariant
                    k <= list.len(),
                    self.model().chat matches Some(c) && c.summaries == list@,
                    summary_of(list@, tool_call_id@, k as int) == summary_of(
                        list@,
                        tool_call_id@,
                        0,
                    ),
                decreases list.len() - k,
            {
                let entry = &list[k];
                if same_text(entry.0.as_str(), tool_call_id) {
                    return Some(&entry.1);
                }
                k += 1;
            }
        }
        None
    }

    /// The kind and the label of the summary of a call.
    pub fn ai_chat_tool_event_summary_parts(&self, tool_call_id: &str) -> (res: Option<
        (ToolSummaryKind, &str),
    >)
        ensures
            match (res, self.model().summary(tool_call_id@)) {
                (Some(p), Some(s)) => p.0 == s.kind && p.1@ == s.label@,
                (None, None) => true,
                _ => false,
            },
    {
        match self.ai_chat_tool_event_summary(tool_call_id) {
            Some(s) => Some((s.kind, s.label.as_str())),
            None => None,
        }
    }

    /// The call with an id.
    pub fn ai_chat_tool_event_call(&self, tool_call_id: &str) -> (res: Option<&ToolCallInfo>)
        ensures
            match res {
                Some(c) => self.model().call(tool_call_id@) == Some(*c),
                None => self.model().call(tool_call_id@) is None,
            },
    {
        if let Some(s) = self.ai_chat_tool_event_summary(tool_call_id) {
            return Some(&s.call);
        }
        if let Some(chat) = &self.chat {
            let list = &chat.messages;
            let mut k: usize = 0;
            while k < list.len()
                invariant
                    k <= list.len(),
                    self.model().messages() == list@,
                    self.model().summary(tool_call_id@) is None,
                    called_in(list@, tool_call_id@, k as int) == called_in(
                        list@,
                        tool_call_id@,
                        0,
                    ),
                decreases list.len() - k,
            {
                if let Some(call) = find_call(&list[k].tool_calls, tool_call_id) {
                    return Some(call);
                }
                k += 1;
            }
        }
        None
    }

    /// Whether the details of a call are shown.
    pub fn ai_chat_is_tool_event_expanded(&self, tool_call_id: &str) -> (res: bool)
        ensures
            res == (self.model().chat matches Some(c) && c.expanded.contains(tool_call_id@)),
    {
        match &self.chat {
            Some(chat) => position_of(&chat.expanded_tool_events, tool_call_id).is_some(),
            None => false,
        }
    }

    fn tells_of_review(&self, tool_call_id: &str) -> (res: bool)
        ensures
            res == exists|i: int|
                0 <= i < self.model().messages().len() && tells_review(
                    #[trigger] self.model().messages()[i],
                    tool_call_id@,
                ),
    {
        if let Some(chat) = &self.chat {
            let list = &chat.messages;
            let mut k: usize = 0;
            while k < list.len()
                invariant
                    k <= list.len(),
                    self.model().messages() == list@,
                    forall|i: int|
                        0 <= i < k ==> !tells_review(#[trigger] list@[i], tool_call_id@),
                decreases list.len() - k,
            {
                let m = &list[k];
                let own = match &m.tool_call_id {
                    Some(id) => same_text(id.as_str(), tool_call_id),
                    None => false,
                };
                if own && custom_diff_replay_id(m.content.as_str()).is_some() {
                    proof {
                        assert(tells_review(self.model().messages()[k as int], tool_call_id@));
                    }
                    return true;
                }
                k += 1;
            }
        }
        false
    }

    /// What a saved review of a call is offered under, if there is one.
    pub fn ai_chat_tool_replay_label(&self, tool_call_id: &str) -> (res: Option<&'static str>)
        ensures
            match (res, self.model().replay_label(tool_call_id@)) {
                (Some(a), Some(b)) => a@ == b,
                (None, None) => true,
                _ => false,
            },
    {
        let summary = self.ai_chat_tool_event_summary(tool_call_id);
        if let Some(s) = summary {
            if s.kind == ToolSummaryKind::Error {
                return None;
            }
        }
        let call = match self.ai_chat_tool_event_call(tool_call_id) {
            Some(call) => call,
            None => {
                return None;
            },
        };
        if same_text(call.name.as_str(), "explain_with_codebase") {
            return Some("Replay walkthrough");
        }
        if same_text(call.name.as_str(), "show_custom_diff") {
            proof {
                reveal_strlit("show_custom_diff");
                reveal_strlit("explain_with_codebase");
            }
            if summary.is_some() || self.tells_of_review(tool_call_id) {
                return Some("Open diff");
            }
        }
        None
    }

    /// What opening the saved review of a call takes. Where there is none, the
    /// editor says so.
    pub fn replay_ai_chat_tool(&mut self, tool_call_id: &str) -> (step: ReplayStep)
        ensures
            final(self).registers == old(self).registers,
            ({
                let e = old(self).model();
                match e.call(tool_call_id@) {
                    Some(call) if call.name@ == "explain_with_codebase"@ => step
                        == ReplayStep::Walkthrough && final(self).model() == e,
                    Some(call) if call.name@ == "show_custom_diff"@ => step
                        == ReplayStep::CustomDiff && final(self).model() == e,
                    _ => step == ReplayStep::Nothing && final(self).model() == with_status(
                        e,
                        "This tool result has no saved review"@,
                    ),
                }
            }),
    {
        if let Some(call) = self.ai_chat_tool_event_call(tool_call_id) {
            if same_text(call.name.as_str(), "explain_with_codebase") {
                return ReplayStep::Walkthrough;
            }
            if same_text(call.name.as_str(), "show_custom_diff") {
                return ReplayStep::CustomDiff;
            }
        }
        self.set_status_message("This tool result has no saved review");
        ReplayStep::Nothing
    }

    /// Says whether the saved review of a call may be opened now; where it may
    /// not, the editor says why.
    pub fn may_replay_custom_diff(&mut self, tool_call_id: &str) -> (may: bool)
        ensures
            final(self).registers == old(self).registers,
            ({
                let e = old(self).model();
                if e.chat matches Some(c) && c.waiting {
                    !may && final(self).model() == with_status(
                        e,
                        "Finish the active agent work before replaying a diff"@,
                    )
                } else if e.call(tool_call_id@) matches Some(call) && call.name@
                    == "show_custom_diff"@ {
                    may && final(self).model() == e
                } else {
                    !may && final(self).model() == with_status(
                        e,
                        "That custom diff is no longer available to replay"@,
                    )
                }
            }),
    {
        if self.ai_chat_waiting() {
            self.set_status_message("Finish the active agent work before replaying a diff");
            return false;
        }
        let known = match self.ai_chat_tool_event_call(tool_call_id) {
            Some(call) => same_text(call.name.as_str(), "show_custom_diff"),
            None => false,
        };
        if !known {
            self.set_status_message("That custom diff is no longer available to replay");
        }
        known
    }

    /// Opens exactly the saved review of a call, given how loading and opening
    /// it went; whether it is open.
    pub fn replay_custom_diff(&mut self, tool_call_id: &str, opened: Result<(), String>) -> (done:
        bool)
        ensures
            final(self).registers == old(self).registers,
            ({
                let e = old(self).model();
                if e.chat matches Some(c) && c.waiting {
                    !done && final(self).model() == with_status(
                        e,
                        "Finish the active agent work before replaying a diff"@,
                    )
                } else if e.call(tool_call_id@) matches Some(call) && call.name@
                    == "show_custom_diff"@ {
                    match opened {
                        Ok(_) => done && final(self).model() == e,
                        Err(error) => !done && final(self).model() == with_status(e, error@),
                    }
                } else {
                    !done && final(self).model() == with_status(
                        e,
                        "That custom diff is no longer available to replay"@,
                    )
                }
            }),
    {
        if !self.may_replay_custom_diff(tool_call_id) {
            return false;
        }
        match opened {
            Ok(_) => true,
            Err(error) => {
                self.set_status_message(error.as_str());
                false
            },
        }
    }

    /// Shows the details of a call, or hides them.
    pub fn toggle_ai_chat_tool_event(&mut self, tool_call_id: &str)
        ensures
            final(self).registers == old(self).registers,
            final(self).model() == toggled(old(self).model(), tool_call_id@),
    {
        if let Some(chat) = &mut self.chat {
            toggle_in(&mut chat.expanded_tool_events, tool_call_id);
        }
    }

    /// Whether the thoughts of a message are shown.
    pub fn ai_chat_is_thinking_expanded(&self, node_id: u64) -> (res: bool)
        ensures
            res == (self.model().chat matches Some(c) && c.thoughts.contains(node_id)),
    {
        if let Some(chat) = &self.chat {
            let list = &chat.expanded_thinking;
            let mut k: usize = 0;
            while k < list.len()
                invariant
                    k <= list.len(),
                    self.model().chat matches Some(c) && c.thoughts == list@.to_set(),
                    forall|i: int| 0 <= i < k ==> list@[i] != node_id,
                decreases list.len() - k,
            {
                if list[k] == node_id {
                    proof {
                        assert(list@.contains(list@[k as int]));
                    }
                    return true;
                }
                k += 1;
            }
        }
        false
    }
}

/// The details of a call are shown, or hidden.
pub open spec fn toggled(e: Ed, id: Seq<char>) -> Ed {
    Ed {
        chat: match e.chat {
            Some(c) => Some(
                Chat {
                    expanded: if c.expanded.contains(id) {
                        c.expanded.remove(id)
                    } else {
                        c.expanded.insert(id)
                    },
                    ..c
                },
            ),
            None => None,
        },
        ..e
    }
}

/// Toggling twice is doing nothing.
pub proof fn toggling_details_twice(e: Ed, id: Seq<char>)
    ensures
        toggled(toggled(e, id), id) == e,
{
    if let Some(c) = e.chat {
        let once = (toggled(e, id).chat->0).expanded;
        let twice = (toggled(toggled(e, id), id).chat->0).expanded;
        assert(twice =~= c.expanded);
    }
}

fn find_call<'a>(calls: &'a Vec<ToolCallInfo>, id: &str) -> (res: Option<&'a ToolCallInfo>)
    ensures
        match res {
            Some(c) => call_of(calls@, id@, 0) == Some(*c),
            None => call_of(calls@, id@, 0) is None,
        },
{
    let mut k: usize = 0;
    while k < calls.len()
        invariant
            k <= calls.len(),
            call_of(calls@, id@, k as int) == call_of(calls@, id@, 0),
        decreases calls.len() - k,
    {
        if same_text(calls[k].id.as_str(), id) {
            return Some(&calls[k]);
        }
        k += 1;
    }
    None
}

fn position_of(list: &Vec<String>, text: &str) -> (res: Option<usize>)
    ensures
        match res {
            Some(k) => k < list.len() && list@[k as int]@ == text@,
            None => forall|i: int| 0 <= i < list.len() ==> (#[trigger] list@[i])@ != text@,
        },
        res is Some == views(list@).to_set().contains(text@),
{
    let ghost all = views(list@);
    let mut k: usize = 0;
    while k < list.len()
        invariant
            k <= list.len(),
            all == views(list@),
            forall|i: int| 0 <= i < k ==> (#[trigger] list@[i])@ != text@,
        decreases list.len() - k,
    {
        if same_text(list[k].as_str(), text) {
            proof {
                assert(all[k as int] == text@);
                assert(all.contains(text@));
            }
            return Some(k);
        }
        k += 1;
    }
    proof {
        if all.contains(text@) {
            let i = choose|i: int| 0 <= i < all.len() && all[i] == text@;
            assert(list@[i]@ == text@);
        }
    }
    None
}

/// Takes a text out of a set, or puts it in.
fn toggle_in(list: &mut Vec<String>, text: &str)
    ensures
        views(final(list)@).to_set() == ({
            let before = views(old(list)@).to_set();
            if before.contains(text@) {
                before.remove(text@)
            } else {
                before.insert(text@)
            }
        }),
{
    let ghost start = views(list@).to_set();
    if position_of(list, text).is_none() {
        let ghost before = list@;
        list.push(text.to_owned());
        proof {
            let after = views(list@);
            assert forall|t: Seq<char>| after.to_set().contains(t) == start.insert(
                text@,
            ).contains(t) by {
                if after.contains(t) {
                    let i = choose|i: int| 0 <= i < after.len() && after[i] == t;
                    if i < before.len() {
                        assert(views(before)[i] == t);
                        assert(views(before).contains(t));
                    }
                }
                if views(before).contains(t) {
                    let i = choose|i: int| 0 <= i < before.len() && views(before)[i] == t;
                    assert(after[i] == t);
                }
                assert(after[before.len() as int] == text@);
            }
            assert(after.to_set() =~= start.insert(text@));
        }
        return;
    }
    let mut k: usize = 0;
    while k < list.len()
        invariant
            k <= list.len(),
            forall|i: int| 0 <= i < k ==> (#[trigger] list@[i])@ != text@,
            forall|t: Seq<char>|
                t != text@ ==> (#[trigger] views(list@).contains(t) == start.contains(t)),
        decreases list.len() - k,
    {
        if same_text(list[k].as_str(), text) {
            let ghost before = list@;
            let _ = list.remove(k);
            proof {
                assert forall|t: Seq<char>| t != text@ implies (#[trigger] views(list@).contains(t)
                    == start.contains(t)) by {
                    if views(before).contains(t) {
                        let i = choose|i: int| 0 <= i < before.len() && views(before)[i] == t;
                        if i < k {
                            assert(views(list@)[i] == t);
                        } else {
                            assert(views(list@)[i - 1] == t);
                        }
                    }
                    if views(list@).contains(t) {
                        let i = choose|i: int| 0 <= i < list@.len() && views(list@)[i] == t;
                        if i < k {
                            assert(views(before)[i] == t);
                        } else {
                            assert(views(before)[i + 1] == t);
                        }
                    }
                }
            }
        } else {
            k += 1;
        }
    }
    proof {
        let after = views(list@);
        assert(!after.contains(text@)) by {
            if after.contains(text@) {
                let i = choose|i: int| 0 <= i < after.len() && after[i] == text@;
                assert(list@[i]@ == text@);
            }
        }
        assert forall|t: Seq<char>| after.to_set().contains(t) == start.remove(text@).contains(
            t,
        ) by {
            if t != text@ {
                assert(after.contains(t) == start.contains(t));
            }
        }
        assert(after.to_set() =~= start.remove(text@));
    }
}

/// A saved review is offered for the call that showed it, once the call has a
/// result; a walkthrough for the call that explained; nothing for a call that
/// failed, is unknown, or did something else.
pub proof fn replays_are_offered_for_their_calls(e: Ed, id: Seq<char>)
    ensures
        (e.summary(id) matches Some(s) && s.kind is Error) ==> e.replay_label(id) is None,
        e.call(id) is None ==> e.replay_label(id) is None,
        (e.call(id) matches Some(c) && c.name@ != "show_custom_diff"@ && c.name@
            != "explain_with_codebase"@) ==> e.replay_label(id) is None,
        (e.call(id) matches Some(c) && c.name@ == "explain_with_codebase"@ && !(e.summary(
            id,
        ) matches Some(s) && s.kind is Error)) ==> e.replay_label(id) == Some(
            "Replay walkthrough"@,
        ),
        e.replay_label(id) == Some("Open diff"@) && "Open diff"@ != "Replay walkthrough"@ ==> (
        e.call(id) matches Some(c) && c.name@ == "show_custom_diff"@),
{
}

} // verus!
