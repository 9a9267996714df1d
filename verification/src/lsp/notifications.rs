//! What the editor and its language servers tell each other of documents.
//!
//! Each document is opened at most once. Its changes wait a moment, so that
//! many become one; each server is then sent the difference to the text that
//! it last received. What a server asks is always answered.
use crate::fmt::{decimal, digits, opt_view};
use crate::json::{Js, Json};
use crate::lsp::simple_diff::{compute_simple_diff, diff_of, diff_reconstructs, with_range};
use crate::lsp::LspRange;
use crate::text::{chars_of, same_text};
use crate::text_map::TextMap;
use crate::unicode::views;
use vstd::prelude::*;

verus! {

/// The newest content of a document that no server was sent yet.
#[derive(Debug)]
pub struct PendingChange {
    pub text: String,
    pub version: i32,
}

/// The changes of a document that wait.
#[derive(Debug)]
pub struct ChangeDebouncer {
    pub language_id: String,
    pub pending: Option<PendingChange>,
    pub retry_attempts: u8,
}

/// A model of the changes of a document that wait.
pub ghost struct Waiting {
    pub language: Seq<char>,
    pub pending: Option<(Seq<char>, i32)>,
    pub attempts: u8,
}

impl ChangeDebouncer {
    pub open spec fn model(self) -> Waiting {
        Waiting {
            language: self.language_id@,
            pending: match self.pending {
                Some(p) => Some((p.text@, p.version)),
                None => None,
            },
            attempts: self.retry_attempts,
        }
    }
}

/// What is known of the documents that servers have open.
#[derive(Debug)]
pub struct LspDocuments {
    /// The newest version of each document
    pub versions: TextMap<i32>,
    /// The version that the servers have
    pub sent: TextMap<i32>,
    /// The text that each server has of each document, by document and server
    pub texts: TextMap<TextMap<String>>,
    pub debouncers: TextMap<ChangeDebouncer>,
    /// When each document was last changed
    pub edits: TextMap<u64>,
    /// What servers say of their work, by server and token
    pub progress: TextMap<TextMap<String>>,
}

/// The text under two keys.
pub open spec fn text_at(m: Map<Seq<char>, TextMap<String>>, a: Seq<char>, b: Seq<char>) -> Option<
    Seq<char>,
> {
    if m.dom().contains(a) && m[a]@.dom().contains(b) {
        Some(m[a]@[b]@)
    } else {
        None
    }
}

pub open spec fn waiting_models(m: Map<Seq<char>, ChangeDebouncer>) -> Map<Seq<char>, Waiting> {
    m.map_values(|d: ChangeDebouncer| d.model())
}

impl LspDocuments {
    /// The text that a server has of a document.
    pub open spec fn baseline(self, uri: Seq<char>, server: Seq<char>) -> Option<Seq<char>> {
        text_at(self.texts@, uri, server)
    }

    /// What a server says of a piece of its work.
    pub open spec fn progress_of(self, server: Seq<char>, token: Seq<char>) -> Option<Seq<char>> {
        text_at(self.progress@, server, token)
    }

    pub open spec fn waiting(self) -> Map<Seq<char>, Waiting> {
        waiting_models(self.debouncers@)
    }

    /// The text that no server but one has of no document but one is as it was.
    pub open spec fn same_texts_but(self, before: LspDocuments, uri: Seq<char>, server: Seq<char>) -> bool {
        forall|u: Seq<char>, s: Seq<char>|
            u != uri || s != server ==> #[trigger] self.baseline(u, s) == before.baseline(u, s)
    }

    /// Nothing but the texts differs.
    pub open spec fn same_but_texts(self, before: LspDocuments) -> bool {
        &&& self.versions@ == before.versions@
        &&& self.sent@ == before.sent@
        &&& self.waiting() == before.waiting()
        &&& self.edits@ == before.edits@
        &&& self.progress@ == before.progress@
    }

    pub fn new() -> (d: LspDocuments)
        ensures
            d.versions@ == Map::<Seq<char>, i32>::empty(),
            d.sent@ == Map::<Seq<char>, i32>::empty(),
            d.waiting() == Map::<Seq<char>, Waiting>::empty(),
            d.edits@ == Map::<Seq<char>, u64>::empty(),
            forall|u: Seq<char>, s: Seq<char>| #[trigger] d.baseline(u, s) is None,
            forall|s: Seq<char>, t: Seq<char>| #[trigger] d.progress_of(s, t) is None,
    {
        let d = LspDocuments {
            versions: TextMap::new(),
            sent: TextMap::new(),
            texts: TextMap::new(),
            debouncers: TextMap::new(),
            edits: TextMap::new(),
            progress: TextMap::new(),
        };
        proof {
            assert(d.waiting() =~= Map::<Seq<char>, Waiting>::empty());
        }
        d
    }
}

/// Sets the text under two keys.
fn put_text(m: &mut TextMap<TextMap<String>>, a: &str, b: &str, text: String)
    ensures
        forall|x: Seq<char>, y: Seq<char>|
            #[trigger] text_at(final(m)@, x, y) == if x == a@ && y == b@ {
                Some(text@)
            } else {
                text_at(old(m)@, x, y)
            },
{
    let mut inner = match m.take(a) {
        Some(inner) => inner,
        None => TextMap::new(),
    };
    inner.insert(b, text);
    m.insert(a, inner);
}

/// Takes the text under two keys away.
fn drop_text(m: &mut TextMap<TextMap<String>>, a: &str, b: &str)
    ensures
        forall|x: Seq<char>, y: Seq<char>|
            #[trigger] text_at(final(m)@, x, y) == if x == a@ && y == b@ {
                None
            } else {
                text_at(old(m)@, x, y)
            },
{
    match m.take(a) {
        Some(mut inner) => {
            inner.remove(b);
            m.insert(a, inner);
        },
        None => {},
    }
}

/// What opening a document takes.
#[derive(Debug, Clone, Copy, PartialEq, Eq, Structural)]
pub enum OpenStep {
    /// It is larger than a server is sent.
    TooLarge,
    /// It is open already.
    Duplicate,
    /// It is to be opened now.
    Claimed,
}

/// How opening a document at one server went.
#[derive(Debug)]
pub enum OpenOutcome {
    NoServer,
    Failed(String),
    Sent,
}

pub open spec fn open_step_of(d: LspDocuments, uri: Seq<char>, size: usize, max: usize) -> OpenStep {
    if size > max {
        OpenStep::TooLarge
    } else if d.versions@.dom().contains(uri) {
        OpenStep::Duplicate
    } else {
        OpenStep::Claimed
    }
}

/// What is said of a document that is too large.
pub fn too_large_message(size: usize, max: usize) -> (s: String)
    ensures
        s@ == "Document too large: "@ + digits(size as nat) + " bytes (max "@ + digits(max as nat)
            + " bytes)"@,
{
    let mut s = "Document too large: ".to_owned();
    s.append(decimal(size as u64).as_str());
    s.append(" bytes (max ");
    s.append(decimal(max as u64).as_str());
    s.append(" bytes)");
    s
}

/// How sending a change to one server went.
#[derive(Debug, Clone, Copy, PartialEq, Eq, Structural)]
pub enum SendOutcome {
    Sent,
    /// The server had that text already.
    InSync,
    /// The server cannot receive it any more.
    Refused,
    TimedOut,
}

/// A change as a server is sent it: a range and its new text, or the whole
/// text.
#[derive(Debug)]
pub struct ContentChange {
    pub range: Option<LspRange>,
    pub text: String,
}

/// A model of a change.
pub ghost struct Sent {
    pub range: Option<LspRange>,
    pub text: Seq<char>,
}

/// What a server makes of a change.
pub open spec fn received(mirror: Seq<char>, c: Sent) -> Seq<char> {
    match c.range {
        Some(r) => with_range(mirror, r, c.text),
        None => c.text,
    }
}

/// The change that a server is sent, given the text that it has: the
/// difference where it takes one, else the whole text; nothing where it has
/// the text already.
pub open spec fn change_of(baseline: Option<Seq<char>>, text: Seq<char>, incremental: bool) -> Option<
    Sent,
> {
    match baseline {
        Some(before) if incremental => match diff_of(before, text) {
            Some((range, new)) => Some(Sent { range: Some(range), text: new }),
            None => None,
        },
        _ => Some(Sent { range: None, text }),
    }
}

/// A server that is sent a change against the text that it has, has the new
/// text then, whether the change is a difference or the whole text.
pub proof fn changes_reconstruct_content(mirror: Seq<char>, text: Seq<char>, incremental: bool)
    requires
        2 * mirror.len() < u32::MAX,
    ensures
        match change_of(Some(mirror), text, incremental) {
            Some(c) => received(mirror, c) == text,
            None => mirror == text,
        },
        received(mirror, change_of(None, text, incremental)->0) == text,
{
    if incremental && mirror != text {
        diff_reconstructs(mirror, text);
    }
}

/// How long to wait before a change that could not be sent is sent again, in
/// milliseconds.
pub open spec fn retry_delay_of(attempts: u8) -> u64 {
    match attempts {
        0 => 500,
        1 => 1_000,
        2 => 2_000,
        3 => 4_000,
        4 => 8_000,
        5 => 16_000,
        _ => 30_000,
    }
}

/// How long to wait before a change that could not be sent is sent again: half
/// a second, twice as long each time, at most half a minute.
pub fn retry_delay(attempts: u8) -> (ms: u64)
    ensures
        ms == retry_delay_of(attempts),
{
    let exponent: u8 = if attempts < 6 {
        attempts
    } else {
        6
    };
    let mut ms: u64 = 500;
    let mut k: u8 = 0;
    while k < exponent
        invariant
            k <= exponent <= 6,
            k < 6 ==> ms == retry_delay_of(k),
            k == 6 ==> ms == 32_000,
        decreases exponent - k,
    {
        ms = ms * 2;
        k += 1;
    }
    if ms > 30_000 {
        30_000
    } else {
        ms
    }
}

/// Waiting never gets shorter, and never longer than half a minute.
pub proof fn retries_back_off(m: u8, n: u8)
    requires
        m <= n,
    ensures
        500 <= retry_delay_of(m) <= retry_delay_of(n) <= 30_000,
        n < 5 ==> retry_delay_of((n + 1) as u8) == 2 * retry_delay_of(n),
{
}

/// How sending a change to all servers went.
pub ghost struct Tally {
    pub sent: bool,
    pub synced: bool,
    pub timed_out: bool,
}

/// How sending a change to the first `k` servers went.
pub open spec fn tally_of(results: Seq<SendOutcome>, k: int) -> Tally
    decreases k,
{
    if k <= 0 || k > results.len() {
        Tally { sent: false, synced: false, timed_out: false }
    } else {
        let t = tally_of(results, k - 1);
        match results[k - 1] {
            SendOutcome::Sent => Tally { sent: true, synced: true, ..t },
            SendOutcome::InSync => Tally { synced: true, ..t },
            SendOutcome::Refused => t,
            SendOutcome::TimedOut => Tally { timed_out: true, ..t },
        }
    }
}

/// What came of sending the changes of a document that waited.
#[derive(Debug, Clone, Copy, PartialEq, Eq, Structural)]
pub enum FlushStep {
    /// No server took it, and none will.
    Dropped,
    /// Every server that can has it.
    Flushed,
    /// Some server may still take it: it is sent again after so many
    /// milliseconds, unless a newer change waits, which has its own timer.
    Again(Option<u64>),
}

/// The documents after the changes of one were sent.
pub open spec fn flushed_docs(
    before: LspDocuments,
    after: LspDocuments,
    uri: Seq<char>,
    text: Seq<char>,
    version: i32,
    results: Seq<SendOutcome>,
    now: u64,
    step: FlushStep,
) -> bool {
    let t = tally_of(results, results.len() as int);
    &&& after.versions@ == before.versions@
    &&& after.texts@ == before.texts@
    &&& after.progress@ == before.progress@
    &&& if t.timed_out {
        let w = before.waiting();
        &&& after.sent@ == before.sent@
        &&& after.edits@ == before.edits@
        &&& if w.dom().contains(uri) && w[uri].pending is None {
            &&& step == FlushStep::Again(Some(retry_delay_of(w[uri].attempts)))
            &&& after.waiting() == w.insert(
                uri,
                Waiting {
                    pending: Some((text, version)),
                    attempts: if w[uri].attempts < u8::MAX {
                        (w[uri].attempts + 1) as u8
                    } else {
                        u8::MAX
                    },
                    ..w[uri]
                },
            )
        } else {
            step == FlushStep::Again(None) && after.waiting() == w
        }
    } else {
        &&& after.waiting() == before.waiting()
        &&& if t.synced {
            &&& step == FlushStep::Flushed
            &&& after.sent@ == before.sent@.insert(uri, version)
            &&& after.edits@ == if t.sent {
                before.edits@.insert(uri, now)
            } else {
                before.edits@
            }
        } else {
            step == FlushStep::Dropped && after.sent@ == before.sent@ && after.edits@
                == before.edits@
        }
    }
}

/// What a server says of its work.
#[derive(Debug)]
pub enum ProgressValue {
    Begin { title: String },
    Report { message: Option<String>, percentage: Option<u32> },
    End { message: Option<String> },
}

/// The message that shows what a server says of its work.
pub open spec fn progress_text(server: Seq<char>, v: ProgressValue) -> Option<Seq<char>> {
    let said = match v {
        ProgressValue::Begin { title } => Some(title@),
        ProgressValue::Report { message, percentage } => match message {
            Some(m) => Some(m@),
            None => match percentage {
                Some(p) => Some(digits(p as nat) + "%"@),
                None => None,
            },
        },
        ProgressValue::End { message } => match message {
            Some(m) => Some(m@),
            None => Some("Complete"@),
        },
    };
    match said {
        Some(s) => Some(server + ": "@ + s),
        None => None,
    }
}

/// The message that shows what a server says of its work.
pub fn progress_message(server: &str, v: &ProgressValue) -> (res: Option<String>)
    ensures
        opt_view(res) == progress_text(server@, *v),
{
    let mut s = server.to_owned();
    s.append(": ");
    match v {
        ProgressValue::Begin { title } => {
            s.append(title.as_str());
        },
        ProgressValue::Report { message, percentage } => match message {
            Some(m) => {
                s.append(m.as_str());
            },
            None => match percentage {
                Some(p) => {
                    let mut n = decimal(*p as u64);
                    n.append("%");
                    s.append(n.as_str());
                },
                None => {
                    return None;
                },
            },
        },
        ProgressValue::End { message } => match message {
            Some(m) => {
                s.append(m.as_str());
            },
            None => {
                s.append("Complete");
            },
        },
    }
    Some(s)
}

impl LspDocuments {
    /// Claims a document to be opened, so that it is opened once.
    pub fn begin_open(&mut self, uri: &str, version: i32, size: usize, max: usize) -> (step: OpenStep)
        ensures
            step == open_step_of(*old(self), uri@, size, max),
            final(self).versions@ == if step is Claimed {
                old(self).versions@.insert(uri@, version)
            } else {
                old(self).versions@
            },
            final(self).texts@ == old(self).texts@,
            final(self).sent@ == old(self).sent@,
            final(self).waiting() == old(self).waiting(),
            final(self).edits@ == old(self).edits@,
            final(self).progress@ == old(self).progress@,
    {
        if size > max {
            return OpenStep::TooLarge;
        }
        if self.versions.contains(uri) {
            return OpenStep::Duplicate;
        }
        self.versions.insert(uri, version);
        OpenStep::Claimed
    }

    /// Ends opening a document at one server. Where it could not be opened, it
    /// is claimed no more.
    pub fn finish_open(
        &mut self,
        uri: &str,
        language_id: &str,
        version: i32,
        text: &str,
        outcome: OpenOutcome,
    ) -> (res: Result<(), String>)
        ensures
            final(self).waiting() == old(self).waiting(),
            final(self).edits@ == old(self).edits@,
            final(self).progress@ == old(self).progress@,
            match outcome {
                OpenOutcome::Sent => {
                    &&& res is Ok
                    &&& final(self).versions@ == old(self).versions@
                    &&& final(self).sent@ == old(self).sent@.insert(uri@, version)
                    &&& final(self).baseline(uri@, language_id@) == Some(text@)
                    &&& final(self).same_texts_but(*old(self), uri@, language_id@)
                },
                OpenOutcome::NoServer => {
                    &&& res matches Err(m) && m@ == "No server for language: "@ + language_id@
                    &&& final(self).versions@ == old(self).versions@.remove(uri@)
                    &&& final(self).sent@ == old(self).sent@
                    &&& final(self).texts@ == old(self).texts@
                },
                OpenOutcome::Failed(error) => {
                    &&& res matches Err(m) && m@ == error@
                    &&& final(self).versions@ == old(self).versions@.remove(uri@)
                    &&& final(self).sent@ == old(self).sent@
                    &&& final(self).texts@ == old(self).texts@
                },
            },
    {
        match outcome {
            OpenOutcome::Sent => {
                put_text(&mut self.texts, uri, language_id, text.to_owned());
                self.sent.insert(uri, version);
                Ok(())
            },
            OpenOutcome::NoServer => {
                self.versions.remove(uri);
                let mut message = "No server for language: ".to_owned();
                message.append(language_id);
                Err(message)
            },
            OpenOutcome::Failed(error) => {
                self.versions.remove(uri);
                Err(error)
            },
        }
    }

    /// Ends opening a document at a group of servers, given which of them were
    /// told. Without any server it is claimed no more.
    pub fn finish_open_broadcast(
        &mut self,
        uri: &str,
        language_id: &str,
        version: i32,
        text: &str,
        servers: &Vec<(String, bool)>,
    ) -> (res: Result<(), String>)
        ensures
            final(self).waiting() == old(self).waiting(),
            final(self).edits@ == old(self).edits@,
            final(self).progress@ == old(self).progress@,
            if servers.len() == 0 {
                &&& res matches Err(m) && m@ == "No servers for language '"@ + language_id@
                    + "' matched document "@ + uri@
                &&& final(self).versions@ == old(self).versions@.remove(uri@)
                &&& final(self).sent@ == old(self).sent@
                &&& final(self).texts@ == old(self).texts@
            } else {
                &&& res is Ok
                &&& final(self).versions@ == old(self).versions@
                &&& final(self).sent@ == old(self).sent@.insert(uri@, version)
                &&& forall|u: Seq<char>, s: Seq<char>|
                    #[trigger] final(self).baseline(u, s) == if u == uri@ && told(
                        servers@,
                        s,
                        servers.len() as int,
                    ) {
                        Some(text@)
                    } else {
                        old(self).baseline(u, s)
                    }
            },
    {
        if servers.len() == 0 {
            self.versions.remove(uri);
            let mut message = "No servers for language '".to_owned();
            message.append(language_id);
            message.append("' matched document ");
            message.append(uri);
            return Err(message);
        }
        let mut k: usize = 0;
        while k < servers.len()
            invariant
                k <= servers.len(),
                self.versions@ == old(self).versions@,
                self.sent@ == old(self).sent@,
                self.waiting() == old(self).waiting(),
                self.edits@ == old(self).edits@,
                self.progress@ == old(self).progress@,
                forall|u: Seq<char>, s: Seq<char>|
                    #[trigger] self.baseline(u, s) == if u == uri@ && told(
                        servers@,
                        s,
                        k as int,
                    ) {
                        Some(text@)
                    } else {
                        old(self).baseline(u, s)
                    },
            decreases servers.len() - k,
        {
            let entry = &servers[k];
            let ghost before = *self;
            if entry.1 {
                put_text(&mut self.texts, uri, entry.0.as_str(), text.to_owned());
            }
            k += 1;
            proof {
                assert forall|u: Seq<char>, s: Seq<char>|
                    #[trigger] self.baseline(u, s) == if u == uri@ && told(
                        servers@,
                        s,
                        k as int,
                    ) {
                        Some(text@)
                    } else {
                        old(self).baseline(u, s)
                    } by {
                    assert(before.baseline(u, s) == if u == uri@ && told(
                        servers@,
                        s,
                        k as int - 1,
                    ) {
                        Some(text@)
                    } else {
                        old(self).baseline(u, s)
                    });
                }
            }
        }
        let ghost done = *self;
        self.sent.insert(uri, version);
        proof {
            assert forall|u: Seq<char>, s: Seq<char>|
                #[trigger] self.baseline(u, s) == if u == uri@ && told(
                    servers@,
                    s,
                    servers.len() as int,
                ) {
                    Some(text@)
                } else {
                    old(self).baseline(u, s)
                } by {
                assert(self.baseline(u, s) == done.baseline(u, s));
            }
        }
        Ok(())
    }

    /// Takes a new content of a document, which then waits to be sent; its
    /// version. Without a trusted text on the servers' side the next change is
    /// the whole text.
    pub fn did_change(
        &mut self,
        uri: &str,
        language_id: &str,
        text: String,
        trusted: bool,
        now: u64,
    ) -> (version: i32)
        requires
            version_at(old(self).versions@, uri@) < i32::MAX,
        ensures
            version == version_at(old(self).versions@, uri@) + 1,
            final(self).versions@ == old(self).versions@.insert(uri@, version),
            final(self).edits@ == old(self).edits@.insert(uri@, now),
            final(self).sent@ == old(self).sent@,
            final(self).progress@ == old(self).progress@,
            final(self).texts@ == if trusted {
                old(self).texts@
            } else {
                old(self).texts@.remove(uri@)
            },
            final(self).waiting() == old(self).waiting().insert(
                uri@,
                Waiting {
                    language: if old(self).waiting().dom().contains(uri@) {
                        old(self).waiting()[uri@].language
                    } else {
                        language_id@
                    },
                    pending: Some((text@, version)),
                    attempts: 0,
                },
            ),
    {
        let version: i32 = match self.versions.get(uri) {
            Some(v) => *v + 1,
            None => 1,
        };
        self.versions.insert(uri, version);
        self.edits.insert(uri, now);
        if !trusted {
            self.texts.remove(uri);
        }
        let ghost before = self.debouncers@;
        let language_id = match self.debouncers.get(uri) {
            Some(d) => d.language_id.clone(),
            None => language_id.to_owned(),
        };
        let d = ChangeDebouncer {
            language_id,
            pending: Some(PendingChange { text, version }),
            retry_attempts: 0,
        };
        self.debouncers.insert(uri, d);
        proof {
            assert(waiting_models(before.insert(uri@, d)) =~= waiting_models(before).insert(
                uri@,
                d.model(),
            ));
        }
        version
    }

    /// The language of a document whose changes are kept.
    pub fn language_of(&self, uri: &str) -> (res: Option<&str>)
        ensures
            match res {
                Some(s) => self.waiting().dom().contains(uri@) && self.waiting()[uri@].language
                    == s@,
                None => !self.waiting().dom().contains(uri@),
            },
    {
        match self.debouncers.get(uri) {
            Some(d) => Some(d.language_id.as_str()),
            None => None,
        }
    }

    /// Takes the change of a document that waits, to be sent. The document's
    /// place stays, so that a change that comes meanwhile is not lost.
    pub fn take_pending(&mut self, uri: &str) -> (res: Option<PendingChange>)
        ensures
            final(self).versions@ == old(self).versions@,
            final(self).sent@ == old(self).sent@,
            final(self).texts@ == old(self).texts@,
            final(self).edits@ == old(self).edits@,
            final(self).progress@ == old(self).progress@,
            ({
                let w = old(self).waiting();
                &&& match res {
                    Some(p) => w.dom().contains(uri@) && w[uri@].pending == Some(
                        (p.text@, p.version),
                    ),
                    None => !w.dom().contains(uri@) || w[uri@].pending is None,
                }
                &&& final(self).waiting() == if w.dom().contains(uri@) {
                    w.insert(uri@, Waiting { pending: None, ..w[uri@] })
                } else {
                    w
                }
            }),
    {
        let ghost before = self.debouncers@;
        match self.debouncers.take(uri) {
            None => {
                proof {
                    assert(before.remove(uri@) =~= before);
                }
                None
            },
            Some(d) => {
                let left = ChangeDebouncer {
                    language_id: d.language_id,
                    pending: None,
                    retry_attempts: d.retry_attempts,
                };
                self.debouncers.insert(uri, left);
                proof {
                    assert(waiting_models(before.remove(uri@).insert(uri@, left))
                        =~= waiting_models(before).insert(uri@, left.model()));
                }
                d.pending
            },
        }
    }

    /// The change that a server is to be sent, if it does not have the text.
    pub fn content_change(&self, uri: &str, server_id: &str, text: &str, incremental: bool) -> (res:
        Option<ContentChange>)
        ensures
            match (res, change_of(self.baseline(uri@, server_id@), text@, incremental)) {
                (Some(c), Some(m)) => c.range == m.range && c.text@ == m.text,
                (None, None) => true,
                _ => false,
            },
    {
        if incremental {
            if let Some(inner) = self.texts.get(uri) {
                if let Some(before) = inner.get(server_id) {
                    return match compute_simple_diff(before.as_str(), text) {
                        Some((range, new)) => Some(
                            ContentChange { range: Some(range), text: new },
                        ),
                        None => None,
                    };
                }
            }
        }
        Some(ContentChange { range: None, text: text.to_owned() })
    }

    /// A server was sent a text of a document.
    pub fn note_sent(&mut self, uri: &str, server_id: &str, text: &str)
        ensures
            final(self).baseline(uri@, server_id@) == Some(text@),
            final(self).same_texts_but(*old(self), uri@, server_id@),
            final(self).same_but_texts(*old(self)),
    {
        put_text(&mut self.texts, uri, server_id, text.to_owned());
    }

    /// Ends sending the change of a document that waited, given how sending it
    /// to each server went.
    pub fn finish_flush(
        &mut self,
        uri: &str,
        change: PendingChange,
        results: &Vec<SendOutcome>,
        now: u64,
    ) -> (step: FlushStep)
        ensures
            flushed_docs(
                *old(self),
                *final(self),
                uri@,
                change.text@,
                change.version,
                results@,
                now,
                step,
            ),
    {
        let mut any_sent = false;
        let mut any_synced = false;
        let mut retry = false;
        let mut k: usize = 0;
        while k < results.len()
            invariant
                k <= results.len(),
                (Tally { sent: any_sent, synced: any_synced, timed_out: retry }) == tally_of(
                    results@,
                    k as int,
                ),
            decreases results.len() - k,
        {
            match results[k] {
                SendOutcome::Sent => {
                    any_sent = true;
                    any_synced = true;
                },
                SendOutcome::InSync => {
                    any_synced = true;
                },
                SendOutcome::Refused => {},
                SendOutcome::TimedOut => {
                    retry = true;
                },
            }
            k += 1;
        }
        if !retry {
            if !any_synced {
                return FlushStep::Dropped;
            }
            self.sent.insert(uri, change.version);
            if any_sent {
                self.edits.insert(uri, now);
            }
            return FlushStep::Flushed;
        }
        let ghost before = self.debouncers@;
        match self.debouncers.take(uri) {
            None => {
                proof {
                    assert(before.remove(uri@) =~= before);
                }
                FlushStep::Again(None)
            },
            Some(d) => {
                if d.pending.is_some() {
                    self.debouncers.insert(uri, d);
                    proof {
                        assert(before.remove(uri@).insert(uri@, d) =~= before);
                    }
                    return FlushStep::Again(None);
                }
                let delay: u64 = retry_delay(d.retry_attempts);
                let armed = ChangeDebouncer {
                    language_id: d.language_id,
                    pending: Some(change),
                    retry_attempts: d.retry_attempts.saturating_add(1),
                };
                self.debouncers.insert(uri, armed);
                proof {
                    assert(waiting_models(before.remove(uri@).insert(uri@, armed))
                        =~= waiting_models(before).insert(uri@, armed.model()));
                }
                FlushStep::Again(Some(delay))
            },
        }
    }

    /// Forgets a document that was closed.
    pub fn close(&mut self, uri: &str)
        ensures
            final(self).versions@ == old(self).versions@.remove(uri@),
            final(self).sent@ == old(self).sent@.remove(uri@),
            final(self).texts@ == old(self).texts@.remove(uri@),
            final(self).waiting() == old(self).waiting().remove(uri@),
            final(self).edits@ == old(self).edits@.remove(uri@),
            final(self).progress@ == old(self).progress@,
    {
        let ghost before = self.debouncers@;
        self.versions.remove(uri);
        self.sent.remove(uri);
        self.debouncers.remove(uri);
        self.texts.remove(uri);
        self.edits.remove(uri);
        proof {
            assert(waiting_models(before.remove(uri@)) =~= waiting_models(before).remove(uri@));
        }
    }

    /// Takes what a server says of a piece of its work: it is shown until the
    /// work ends.
    pub fn note_progress(&mut self, server_id: &str, token: &str, value: &ProgressValue)
        ensures
            final(self).versions@ == old(self).versions@,
            final(self).sent@ == old(self).sent@,
            final(self).texts@ == old(self).texts@,
            final(self).waiting() == old(self).waiting(),
            final(self).edits@ == old(self).edits@,
            forall|s: Seq<char>, t: Seq<char>|
                #[trigger] final(self).progress_of(s, t) == if s == server_id@ && t == token@
                    && progress_text(server_id@, *value) is Some {
                    if value is End {
                        None
                    } else {
                        progress_text(server_id@, *value)
                    }
                } else {
                    old(self).progress_of(s, t)
                },
    {
        let message = match progress_message(server_id, value) {
            Some(message) => message,
            None => {
                return;
            },
        };
        match value {
            ProgressValue::End { .. } => drop_text(&mut self.progress, server_id, token),
            _ => put_text(&mut self.progress, server_id, token, message),
        }
    }
}

/// The version of a document; zero where it has none.
pub open spec fn version_at(m: Map<Seq<char>, i32>, uri: Seq<char>) -> int {
    if m.dom().contains(uri) {
        m[uri] as int
    } else {
        0
    }
}

/// One of the first `k` servers with a name was told.
pub open spec fn told(servers: Seq<(String, bool)>, server: Seq<char>, k: int) -> bool
    decreases k,
{
    if k <= 0 || k > servers.len() {
        false
    } else {
        told(servers, server, k - 1) || (servers[k - 1].0@ == server && servers[k - 1].1)
    }
}

/// What is said where sending a change must be tried again.
pub fn flush_incomplete_message(uri: &str) -> (s: String)
    ensures
        s@ == "didChange flush incomplete for "@ + uri@ + " (queued for retry)"@,
{
    let mut s = "didChange flush incomplete for ".to_owned();
    s.append(uri);
    s.append(" (queued for retry)");
    s
}

/// The state of a server.
#[derive(Debug)]
pub enum ServerState {
    Ready,
    Spawning,
    Initializing,
    Failed(String),
    ShuttingDown,
    Terminated,
}

/// Why a server cannot receive a change, if it cannot. One that is starting
/// can: what it is sent waits for it.
pub open spec fn refusal_of(server: Seq<char>, state: Option<ServerState>) -> Option<Seq<char>> {
    match state {
        None => Some("No active server for language: "@ + server),
        Some(ServerState::Ready)
        | Some(ServerState::Spawning)
        | Some(ServerState::Initializing) => None,
        Some(ServerState::Failed(error)) => Some("LSP server "@ + server + " failed: "@ + error@),
        Some(ServerState::ShuttingDown) => Some("LSP server "@ + server + " is shutting down"@),
        Some(ServerState::Terminated) => Some("LSP server "@ + server + " has terminated"@),
    }
}

/// Why a server cannot receive a change, if it cannot.
pub fn delivery_refusal(server_id: &str, state: &Option<ServerState>) -> (res: Option<String>)
    ensures
        opt_view(res) == refusal_of(server_id@, *state),
{
    match state {
        None => {
            let mut s = "No active server for language: ".to_owned();
            s.append(server_id);
            Some(s)
        },
        Some(ServerState::Ready) => None,
        Some(ServerState::Spawning) => None,
        Some(ServerState::Initializing) => None,
        Some(ServerState::Failed(error)) => {
            let mut s = "LSP server ".to_owned();
            s.append(server_id);
            s.append(" failed: ");
            s.append(error.as_str());
            Some(s)
        },
        Some(ServerState::ShuttingDown) => {
            let mut s = "LSP server ".to_owned();
            s.append(server_id);
            s.append(" is shutting down");
            Some(s)
        },
        Some(ServerState::Terminated) => {
            let mut s = "LSP server ".to_owned();
            s.append(server_id);
            s.append(" has terminated");
            Some(s)
        },
    }
}

/// A document is opened once: one that was claimed is not claimed again until
/// opening it failed or it was closed.
pub proof fn documents_open_once(
    before: LspDocuments,
    after: LspDocuments,
    uri: Seq<char>,
    version: i32,
    size: usize,
    max: usize,
)
    requires
        open_step_of(before, uri, size, max) is Claimed,
        after.versions@ == before.versions@.insert(uri, version),
    ensures
        open_step_of(after, uri, size, max) is Duplicate,
        forall|rolled: LspDocuments|
            rolled.versions@ == after.versions@.remove(uri) ==> #[trigger] open_step_of(
                rolled,
                uri,
                size,
                max,
            ) is Claimed,
{
}

/// A change that came while another was sent is not overwritten by sending the
/// other again.
pub proof fn newer_changes_win(
    before: LspDocuments,
    after: LspDocuments,
    uri: Seq<char>,
    text: Seq<char>,
    version: i32,
    results: Seq<SendOutcome>,
    now: u64,
    step: FlushStep,
)
    requires
        flushed_docs(before, after, uri, text, version, results, now, step),
        before.waiting().dom().contains(uri),
        before.waiting()[uri].pending is Some,
    ensures
        after.waiting() == before.waiting(),
{
}

/// No version that was sent, or that waits to be, is newer than its document.
pub open spec fn versions_in_order(d: LspDocuments) -> bool {
    &&& forall|uri: Seq<char>| #[trigger]
        d.sent@.dom().contains(uri) ==> d.versions@.dom().contains(uri) && d.sent@[uri]
            <= d.versions@[uri]
    &&& forall|uri: Seq<char>| #[trigger]
        d.waiting().dom().contains(uri) ==> (d.waiting()[uri].pending matches Some(p) ==> p.1
            <= version_at(d.versions@, uri))
}

/// A new content is newer than all that was sent of its document, and no
/// document falls behind what was sent of it.
pub proof fn changes_get_newer(
    before: LspDocuments,
    after: LspDocuments,
    uri: Seq<char>,
    version: i32,
    language: Seq<char>,
    text: Seq<char>,
)
    requires
        versions_in_order(before),
        version == version_at(before.versions@, uri) + 1,
        after.versions@ == before.versions@.insert(uri, version),
        after.sent@ == before.sent@,
        after.waiting() == before.waiting().insert(
            uri,
            Waiting { language, pending: Some((text, version)), attempts: 0 },
        ),
    ensures
        versions_in_order(after),
        after.sent@.dom().contains(uri) ==> after.sent@[uri] < version,
{
}

/// Sending a change keeps documents ahead of what was sent of them, whether
/// the change arrives or waits to be sent again.
pub proof fn flushing_keeps_versions_in_order(
    before: LspDocuments,
    after: LspDocuments,
    uri: Seq<char>,
    text: Seq<char>,
    version: i32,
    results: Seq<SendOutcome>,
    now: u64,
    step: FlushStep,
)
    requires
        versions_in_order(before),
        flushed_docs(before, after, uri, text, version, results, now, step),
        before.versions@.dom().contains(uri),
        version <= before.versions@[uri],
    ensures
        versions_in_order(after),
{
}

/// The part of a configuration under a path of keys, from the `k`th on.
pub open spec fn setting_at(v: Js, keys: Seq<Seq<char>>, k: int) -> Option<Js>
    decreases keys.len() - k,
{
    if k < 0 || k >= keys.len() {
        Some(v)
    } else {
        match v.member(keys[k]) {
            Some(inner) => setting_at(inner, keys, k + 1),
            None => None,
        }
    }
}

/// The parts of a text between its points, up to the `k`th character.
pub open spec fn point_parts(t: Seq<char>, k: int) -> Seq<Seq<char>>
    decreases k,
{
    if k <= 0 || k > t.len() {
        seq![Seq::empty()]
    } else {
        let before = point_parts(t, k - 1);
        if t[k - 1] == '.' {
            before.push(Seq::empty())
        } else {
            before.update(before.len() - 1, before.last().push(t[k - 1]))
        }
    }
}

/// What a server is answered that asks for a configuration.
pub open spec fn setting_for(settings: Option<Js>, item: Js) -> Js {
    match settings {
        None => Js::Null,
        Some(all) => match item.member("section"@) {
            Some(Js::Text(section)) => match setting_at(
                all,
                point_parts(section, section.len() as int),
                0,
            ) {
                Some(v) => v,
                None => Js::Null,
            },
            _ => all,
        },
    }
}

/// The items that a server asks for.
pub open spec fn items_of(params: Option<Js>) -> Seq<Js> {
    match params {
        Some(p) => match p.member("items"@) {
            Some(Js::List(items)) => items,
            _ => Seq::empty(),
        },
        None => Seq::empty(),
    }
}

pub open spec fn json_models(list: Seq<Json>) -> Seq<Js> {
    list.map_values(|v: Json| v.model())
}

pub open spec fn opt_json(v: Option<&Json>) -> Option<Js> {
    match v {
        Some(v) => Some(v.model()),
        None => None,
    }
}

fn split_points(text: &str) -> (out: Vec<String>)
    ensures
        views(out@) == point_parts(text@, text@.len() as int),
        out.len() > 0,
{
    let cs = chars_of(text);
    let mut out: Vec<String> = Vec::new();
    let mut part = String::new();
    let mut k: usize = 0;
    proof {
        assert(views(out@).push(part@) =~= point_parts(text@, 0));
    }
    while k < cs.len()
        invariant
            k <= cs.len(),
            cs@ == text@,
            views(out@).push(part@) == point_parts(text@, k as int),
        decreases cs.len() - k,
    {
        let c = cs[k];
        let ghost done = views(out@);
        let ghost last = part@;
        if c == '.' {
            out.push(part);
            part = String::new();
            proof {
                assert(views(out@) =~= done.push(last));
                assert(part@ =~= Seq::empty());
            }
        } else {
            part.push(c);
            proof {
                assert(done.push(part@) =~= done.push(last).update(
                    done.len() as int,
                    last.push(c),
                ));
            }
        }
        k += 1;
    }
    let ghost done = views(out@);
    let ghost last = part@;
    out.push(part);
    proof {
        assert(views(out@) =~= done.push(last));
    }
    out
}

fn find_setting<'a>(settings: &'a Json, keys: &Vec<String>) -> (res: Option<&'a Json>)
    ensures
        match (res, setting_at(settings.model(), views(keys@), 0)) {
            (Some(a), Some(b)) => a.model() == b,
            (None, None) => true,
            _ => false,
        },
{
    let ghost all = views(keys@);
    let mut at = settings;
    let mut k: usize = 0;
    while k < keys.len()
        invariant
            k <= keys.len(),
            all == views(keys@),
            setting_at(at.model(), all, k as int) == setting_at(settings.model(), all, 0),
        decreases keys.len() - k,
    {
        proof {
            assert(all[k as int] == keys@[k as int]@);
        }
        match at.get(keys[k].as_str()) {
            Some(inner) => {
                at = inner;
            },
            None => {
                return None;
            },
        }
        k += 1;
    }
    Some(at)
}

fn answer_item(settings: Option<&Json>, item: &Json) -> (v: Json)
    ensures
        v.model() == setting_for(opt_json(settings), item.model()),
{
    let all = match settings {
        Some(all) => all,
        None => {
            return Json::Null;
        },
    };
    if let Some(section) = item.get("section") {
        if let Some(text) = section.as_text() {
            let keys = split_points(text);
            return match find_setting(all, &keys) {
                Some(v) => v.copy(),
                None => Json::Null,
            };
        }
    }
    all.copy()
}

/// The values that a server is answered that asks for a configuration: for
/// each item the part of the settings that it names, the whole settings where
/// it names none, and null where there is no such part or no settings.
pub fn workspace_configuration_values(settings: Option<&Json>, params: Option<&Json>) -> (out: Vec<
    Json,
>)
    ensures
        json_models(out@) == items_of(opt_json(params)).map_values(
            |item: Js| setting_for(opt_json(settings), item),
        ),
{
    let mut out: Vec<Json> = Vec::new();
    let items = match params {
        Some(p) => p.get("items"),
        None => None,
    };
    let ghost goal = items_of(opt_json(params)).map_values(
        |item: Js| setting_for(opt_json(settings), item),
    );
    if let Some(value) = items {
        if let Json::List(list) = value {
            let ghost all = value.model()->List_0;
            let mut k: usize = 0;
            while k < list.len()
                invariant
                    k <= list.len(),
                    *value == Json::List(*list),
                    all == value.model()->List_0,
                    all == items_of(opt_json(params)),
                    goal == items_of(opt_json(params)).map_values(
                        |item: Js| setting_for(opt_json(settings), item),
                    ),
                    out.len() == k,
                    forall|i: int|
                        0 <= i < k ==> (#[trigger] out@[i]).model() == setting_for(
                            opt_json(settings),
                            all[i],
                        ),
                decreases list.len() - k,
            {
                proof {
                    assert(all[k as int] == list@[k as int].model());
                }
                out.push(answer_item(settings, &list[k]));
                k += 1;
            }
            proof {
                assert(all.len() == list.len());
                assert(json_models(out@) =~= goal);
            }
            return out;
        }
    }
    proof {
        assert(json_models(out@) =~= goal);
    }
    out
}

/// What a server asks the editor to do.
#[derive(Debug, Clone, Copy, PartialEq, Eq, Structural)]
pub enum ServerRequest {
    ApplyEdit,
    RegisterCapability,
    UnregisterCapability,
    Configuration,
    ShowMessage,
    CreateProgress,
    Unsupported,
}

pub open spec fn request_named(method: Seq<char>) -> ServerRequest {
    if method == "workspace/applyEdit"@ {
        ServerRequest::ApplyEdit
    } else if method == "client/registerCapability"@ {
        ServerRequest::RegisterCapability
    } else if method == "client/unregisterCapability"@ {
        ServerRequest::UnregisterCapability
    } else if method == "workspace/configuration"@ {
        ServerRequest::Configuration
    } else if method == "window/showMessageRequest"@ {
        ServerRequest::ShowMessage
    } else if method == "window/workDoneProgress/create"@ {
        ServerRequest::CreateProgress
    } else {
        ServerRequest::Unsupported
    }
}

/// What a server asks for by a method.
pub fn classify_request(method: &str) -> (r: ServerRequest)
    ensures
        r == request_named(method@),
{
    if same_text(method, "workspace/applyEdit") {
        ServerRequest::ApplyEdit
    } else if same_text(method, "client/registerCapability") {
        ServerRequest::RegisterCapability
    } else if same_text(method, "client/unregisterCapability") {
        ServerRequest::UnregisterCapability
    } else if same_text(method, "workspace/configuration") {
        ServerRequest::Configuration
    } else if same_text(method, "window/showMessageRequest") {
        ServerRequest::ShowMessage
    } else if same_text(method, "window/workDoneProgress/create") {
        ServerRequest::CreateProgress
    } else {
        ServerRequest::Unsupported
    }
}

/// How an edit that a server asks for was taken.
#[derive(Debug)]
pub enum EditOutcome {
    /// It had no parameters.
    Missing,
    /// Its parameters could not be read.
    Unreadable(String),
    /// It could not be queued.
    NotQueued(String),
    Queued,
}

/// What a server is answered.
#[derive(Debug)]
pub enum Reply {
    /// The edit was applied.
    Applied,
    Value(Json),
    Error { code: i64, message: String },
}

/// A model of what a server is answered.
pub ghost enum Answer {
    Applied,
    Value(Js),
    Error(int, Seq<char>),
}

impl Reply {
    pub open spec fn model(self) -> Answer {
        match self {
            Reply::Applied => Answer::Applied,
            Reply::Value(v) => Answer::Value(v.model()),
            Reply::Error { code, message } => Answer::Error(code as int, message@),
        }
    }
}

/// What a request that carries an id is answered. Only an edit without
/// parameters is not.
pub open spec fn answer_to(
    method: Seq<char>,
    edit: EditOutcome,
    settings: Option<Js>,
    params: Option<Js>,
) -> Option<Answer> {
    match request_named(method) {
        ServerRequest::ApplyEdit => match edit {
            EditOutcome::Missing => None,
            EditOutcome::Unreadable(error) => Some(
                Answer::Error(-32700, "Failed to parse parameters: "@ + error@),
            ),
            EditOutcome::NotQueued(error) => Some(
                Answer::Error(-32603, "Failed to queue edit: "@ + error@),
            ),
            EditOutcome::Queued => Some(Answer::Applied),
        },
        ServerRequest::Configuration => Some(
            Answer::Value(
                Js::List(items_of(params).map_values(|item: Js| setting_for(settings, item))),
            ),
        ),
        ServerRequest::RegisterCapability
        | ServerRequest::UnregisterCapability
        | ServerRequest::ShowMessage
        | ServerRequest::CreateProgress => Some(Answer::Value(Js::Null)),
        ServerRequest::Unsupported => Some(
            Answer::Error(-32601, "Method not supported: "@ + method),
        ),
    }
}

fn error_reply(code: i64, text: &str, more: &str) -> (r: Reply)
    ensures
        r.model() == Answer::Error(code as int, text@ + more@),
{
    let mut message = text.to_owned();
    message.append(more);
    Reply::Error { code, message }
}

/// What a request of a server is answered; nothing where it carries no id.
pub fn reply_to(
    method: &str,
    has_id: bool,
    edit: &EditOutcome,
    settings: Option<&Json>,
    params: Option<&Json>,
) -> (res: Option<Reply>)
    ensures
        match res {
            Some(r) => has_id && answer_to(method@, *edit, opt_json(settings), opt_json(params))
                == Some(r.model()),
            None => !has_id || answer_to(
                method@,
                *edit,
                opt_json(settings),
                opt_json(params),
            ) is None,
        },
{
    if !has_id {
        return None;
    }
    match classify_request(method) {
        ServerRequest::ApplyEdit => match edit {
            EditOutcome::Missing => None,
            EditOutcome::Unreadable(error) => Some(
                error_reply(-32700, "Failed to parse parameters: ", error.as_str()),
            ),
            EditOutcome::NotQueued(error) => Some(
                error_reply(-32603, "Failed to queue edit: ", error.as_str()),
            ),
            EditOutcome::Queued => Some(Reply::Applied),
        },
        ServerRequest::Configuration => {
            let values = workspace_configuration_values(settings, params);
            let list = Json::List(values);
            proof {
                assert(list.model()->List_0 =~= json_models(values@));
            }
            Some(Reply::Value(list))
        },
        ServerRequest::RegisterCapability => Some(Reply::Value(Json::Null)),
        ServerRequest::UnregisterCapability => Some(Reply::Value(Json::Null)),
        ServerRequest::ShowMessage => Some(Reply::Value(Json::Null)),
        ServerRequest::CreateProgress => Some(Reply::Value(Json::Null)),
        ServerRequest::Unsupported => Some(
            error_reply(-32601, "Method not supported: ", method),
        ),
    }
}

/// Every request is answered, but for an edit without parameters; a method
/// that is not supported with the error that says so.
pub proof fn requests_are_answered(
    method: Seq<char>,
    edit: EditOutcome,
    settings: Option<Js>,
    params: Option<Js>,
)
    ensures
        answer_to(method, edit, settings, params) is None <==> method == "workspace/applyEdit"@
            && edit is Missing,
        request_named(method) is Unsupported ==> answer_to(method, edit, settings, params) == Some(
            Answer::Error(-32601, "Method not supported: "@ + method),
        ),
        request_named(method) is Configuration ==> (answer_to(
            method,
            edit,
            settings,
            params,
        ) matches Some(Answer::Value(Js::List(values))) && values.len() == items_of(params).len()),
{
}

/// What a server tells the editor.
#[derive(Debug, Clone, Copy, PartialEq, Eq, Structural)]
pub enum ServerNotice {
    PublishDiagnostics,
    ShowMessage,
    LogMessage,
    Progress,
    Unknown,
}

pub open spec fn notice_named(method: Seq<char>) -> ServerNotice {
    if method == "textDocument/publishDiagnostics"@ {
        ServerNotice::PublishDiagnostics
    } else if method == "window/showMessage"@ {
        ServerNotice::ShowMessage
    } else if method == "window/logMessage"@ {
        ServerNotice::LogMessage
    } else if method == "$/progress"@ {
        ServerNotice::Progress
    } else {
        ServerNotice::Unknown
    }
}

/// What a server tells by a method.
pub fn classify_notification(method: &str) -> (n: ServerNotice)
    ensures
        n == notice_named(method@),
{
    if same_text(method, "textDocument/publishDiagnostics") {
        ServerNotice::PublishDiagnostics
    } else if same_text(method, "window/showMessage") {
        ServerNotice::ShowMessage
    } else if same_text(method, "window/logMessage") {
        ServerNotice::LogMessage
    } else if same_text(method, "$/progress") {
        ServerNotice::Progress
    } else {
        ServerNotice::Unknown
    }
}

/// How a server ranks a message of its own.
#[derive(Debug, Clone, Copy, PartialEq, Eq, Structural)]
pub enum MessageKind {
    Error,
    Warning,
    Info,
    Log,
    Other,
}

/// How the editor's log ranks an entry.
#[derive(Debug, Clone, Copy, PartialEq, Eq, Structural)]
pub enum LogLevel {
    Error,
    Warning,
    Info,
    Debug,
}

/// An entry of the editor's log.
#[derive(Debug)]
pub struct LogEntry {
    pub level: LogLevel,
    pub source: String,
    pub text: String,
}

pub open spec fn kind_label(kind: MessageKind) -> Seq<char> {
    match kind {
        MessageKind::Error => "ERROR"@,
        MessageKind::Warning => "WARN"@,
        MessageKind::Info => "INFO"@,
        MessageKind::Log => "LOG"@,
        MessageKind::Other => "UNKNOWN"@,
    }
}

pub open spec fn kind_title(kind: MessageKind) -> Seq<char> {
    match kind {
        MessageKind::Error => "LSP Error"@,
        MessageKind::Warning => "LSP Warning"@,
        MessageKind::Info => "LSP Info"@,
        MessageKind::Log => "LSP Log"@,
        MessageKind::Other => "LSP"@,
    }
}

/// The rank of a message in the log, given that of one that is neither an
/// error, nor a warning, nor an information.
pub open spec fn level_of(kind: MessageKind, other: LogLevel) -> LogLevel {
    match kind {
        MessageKind::Error => LogLevel::Error,
        MessageKind::Warning => LogLevel::Warning,
        MessageKind::Info => LogLevel::Info,
        _ => other,
    }
}

fn label(kind: MessageKind) -> (s: &'static str)
    ensures
        s@ == kind_label(kind),
{
    match kind {
        MessageKind::Error => "ERROR",
        MessageKind::Warning => "WARN",
        MessageKind::Info => "INFO",
        MessageKind::Log => "LOG",
        MessageKind::Other => "UNKNOWN",
    }
}

fn title(kind: MessageKind) -> (s: &'static str)
    ensures
        s@ == kind_title(kind),
{
    match kind {
        MessageKind::Error => "LSP Error",
        MessageKind::Warning => "LSP Warning",
        MessageKind::Info => "LSP Info",
        MessageKind::Log => "LSP Log",
        MessageKind::Other => "LSP",
    }
}

fn level(kind: MessageKind, other: LogLevel) -> (l: LogLevel)
    ensures
        l == level_of(kind, other),
{
    match kind {
        MessageKind::Error => LogLevel::Error,
        MessageKind::Warning => LogLevel::Warning,
        MessageKind::Info => LogLevel::Info,
        _ => other,
    }
}

/// What the log says of a message that a server wants shown. Only where the
/// servers are being watched is it kept, so that it clutters nothing.
pub fn shown_message(server_id: &str, kind: MessageKind, message: &str, watched: bool) -> (res:
    Option<LogEntry>)
    ensures
        match res {
            Some(e) => watched && e.level == level_of(kind, LogLevel::Info) && e.source@
                == server_id@ + ":"@ + kind_title(kind) && e.text@ == kind_label(kind) + ": "@
                + message@,
            None => !watched,
        },
{
    if !watched {
        return None;
    }
    let mut source = server_id.to_owned();
    source.append(":");
    source.append(title(kind));
    let mut text = label(kind).to_owned();
    text.append(": ");
    text.append(message);
    Some(LogEntry { level: level(kind, LogLevel::Info), source, text })
}

/// What the log says of a message that a server wants logged.
pub fn logged_message(server_id: &str, kind: MessageKind, message: &str) -> (e: LogEntry)
    ensures
        e.level == level_of(kind, LogLevel::Debug),
        e.source@ == "LSP:"@ + server_id@ + ":"@ + kind_label(kind),
        e.text@ == message@,
{
    let mut source = "LSP:".to_owned();
    source.append(server_id);
    source.append(":");
    source.append(label(kind));
    LogEntry { level: level(kind, LogLevel::Debug), source, text: message.to_owned() }
}

} // verus!
