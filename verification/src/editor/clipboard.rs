//! Clipboard synchronization at command execution boundaries.
//!
//! Registers own editing state; this integration owns external I/O. A scope
//! observes one lazy external snapshot, then its own writes. Only its final
//! write is published, unless execution explicitly crosses an external boundary.
use vstd::prelude::*;

verus! {

/// A use of the external clipboard: a read with its reply, or a write.
pub ghost enum Effect {
    Read(Option<Seq<char>>),
    Write(Seq<char>),
}

/// The characters of a reply.
pub open spec fn reply_view(reply: Option<String>) -> Option<Seq<char>> {
    match reply {
        Some(s) => Some(s@),
        None => None,
    }
}

/// Fallible external clipboard access. Failure is best-effort: the
/// integration retains its local fallback.
pub trait ClipboardBackend {
    /// The uses that were made of the clipboard so far. What a backend keeps
    /// for this is its own matter: one whose uses are reasoned about replaces
    /// the empty record, which no use leaves as it is.
    open spec fn log(&self) -> Seq<Effect> {
        Seq::empty()
    }

    /// Asks for the clipboard's text.
    fn read(&mut self) -> (reply: Option<String>)
        ensures
            final(self).log() == old(self).log().push(Effect::Read(reply_view(reply))),
    ;

    /// Hands the clipboard a text; whether it took it.
    fn write(&mut self, text: &str) -> (taken: bool)
        ensures
            final(self).log() == old(self).log().push(Effect::Write(text@)),
    ;
}

/// No clipboard: nothing can be read, and what is written stays local.
pub struct NoClipboard {
    uses: Ghost<Seq<Effect>>,
}

impl NoClipboard {
    pub fn new() -> (b: NoClipboard)
        ensures
            b.log() == Seq::<Effect>::empty(),
    {
        NoClipboard { uses: Ghost(Seq::empty()) }
    }
}

impl ClipboardBackend for NoClipboard {
    closed spec fn log(&self) -> Seq<Effect> {
        self.uses@
    }

    fn read(&mut self) -> (reply: Option<String>)
        ensures
            reply is None,
    {
        self.uses = Ghost(self.uses@.push(Effect::Read(None)));
        None
    }

    fn write(&mut self, text: &str) -> (taken: bool)
        ensures
            !taken,
    {
        self.uses = Ghost(self.uses@.push(Effect::Write(text@)));
        false
    }
}

/// What the integration knows between two uses of the external clipboard.
#[derive(Debug)]
pub struct ClipboardState {
    /// Latest known text, also used when the clipboard is unavailable.
    pub fallback: String,
    /// Whether the fallback is also this execution scope's snapshot.
    pub snapshot_valid: bool,
    pub pending_write: bool,
    pub execution_depth: usize,
}

/// A model of the state.
pub ghost struct ClipModel {
    pub fallback: Seq<char>,
    pub valid: bool,
    pub pending: bool,
    pub depth: nat,
}

impl ClipModel {
    pub open spec fn new() -> ClipModel {
        ClipModel { fallback: Seq::empty(), valid: false, pending: false, depth: 0 }
    }

    /// Nothing waits to be published outside execution scopes.
    pub open spec fn wf(self) -> bool {
        self.depth == 0 ==> !self.pending
    }

    pub open spec fn begun(self) -> ClipModel {
        ClipModel { valid: self.valid && self.depth > 0, depth: self.depth + 1, ..self }
    }

    /// What closing the innermost scope publishes.
    pub open spec fn end_effects(self) -> Seq<Effect> {
        if self.depth == 1 {
            self.flush_effects()
        } else {
            Seq::empty()
        }
    }

    pub open spec fn ended(self) -> ClipModel {
        if self.depth == 1 {
            ClipModel { valid: false, pending: false, depth: 0, ..self }
        } else {
            ClipModel { depth: (self.depth - 1) as nat, ..self }
        }
    }

    pub open spec fn flush_effects(self) -> Seq<Effect> {
        if self.pending {
            seq![Effect::Write(self.fallback)]
        } else {
            Seq::empty()
        }
    }

    pub open spec fn flushed(self) -> ClipModel {
        ClipModel { pending: false, ..self }
    }

    pub open spec fn invalidated(self) -> ClipModel {
        ClipModel { valid: false, ..self }
    }

    /// Whether a read is answered without the external clipboard: inside a
    /// scope, by the scope's own write or by its snapshot.
    pub open spec fn reads_locally(self) -> bool {
        self.depth > 0 && (self.pending || self.valid)
    }

    /// What a read gives where the external clipboard replied.
    pub open spec fn reply_text(self, reply: Option<Seq<char>>) -> Seq<char> {
        match reply {
            Some(text) => text,
            None => self.fallback,
        }
    }

    pub open spec fn replied(self, reply: Option<Seq<char>>) -> ClipModel {
        ClipModel {
            fallback: self.reply_text(reply),
            valid: self.valid || self.depth > 0,
            ..self
        }
    }

    pub open spec fn written(self, text: Seq<char>) -> ClipModel {
        if self.depth > 0 {
            ClipModel { fallback: text, valid: true, pending: true, ..self }
        } else {
            ClipModel { fallback: text, ..self }
        }
    }

    pub open spec fn write_effects(self, text: Seq<char>) -> Seq<Effect> {
        if self.depth > 0 {
            Seq::empty()
        } else {
            seq![Effect::Write(text)]
        }
    }
}

impl ClipboardState {
    pub open spec fn model(self) -> ClipModel {
        ClipModel {
            fallback: self.fallback@,
            valid: self.snapshot_valid,
            pending: self.pending_write,
            depth: self.execution_depth as nat,
        }
    }

    pub fn new() -> (s: ClipboardState)
        ensures
            s.model() == ClipModel::new(),
    {
        ClipboardState {
            fallback: String::new(),
            snapshot_valid: false,
            pending_write: false,
            execution_depth: 0,
        }
    }

    /// Enters a scope.
    pub fn begin(&mut self)
        requires
            old(self).execution_depth < usize::MAX,
        ensures
            final(self).model() == old(self).model().begun(),
    {
        if self.execution_depth == 0 {
            self.snapshot_valid = false;
        }
        self.execution_depth += 1;
    }

    /// Takes note that what waits is being published; whether it must be.
    pub fn flush(&mut self) -> (publish: bool)
        ensures
            publish == old(self).pending_write,
            final(self).model() == old(self).model().flushed(),
    {
        let publish = self.pending_write;
        self.pending_write = false;
        publish
    }

    /// Leaves the innermost scope; whether the fallback must be published.
    pub fn end(&mut self) -> (publish: bool)
        requires
            old(self).execution_depth > 0,
        ensures
            publish == (old(self).model().end_effects().len() > 0),
            final(self).model() == old(self).model().ended(),
    {
        self.execution_depth -= 1;
        if self.execution_depth == 0 {
            let publish = self.flush();
            self.snapshot_valid = false;
            publish
        } else {
            false
        }
    }

    /// Whether a read is answered without the external clipboard.
    pub fn answers_locally(&self) -> (res: bool)
        ensures
            res == self.model().reads_locally(),
    {
        self.execution_depth > 0 && (self.pending_write || self.snapshot_valid)
    }

    /// What a read gives where the external clipboard replied. An unavailable
    /// clipboard leaves the latest known text.
    pub fn accept(&mut self, reply: Option<String>) -> (text: String)
        ensures
            text@ == old(self).model().reply_text(reply_view(reply)),
            final(self).model() == old(self).model().replied(reply_view(reply)),
    {
        if let Some(text) = reply {
            self.fallback = text;
        }
        if self.execution_depth > 0 {
            self.snapshot_valid = true;
        }
        self.fallback.clone()
    }

    /// Replaces the text; whether it must be published at once.
    pub fn replace(&mut self, text: String) -> (publish: bool)
        ensures
            publish == (old(self).execution_depth == 0),
            final(self).model() == old(self).model().written(text@),
    {
        self.fallback = text;
        if self.execution_depth > 0 {
            self.snapshot_valid = true;
            self.pending_write = true;
            false
        } else {
            true
        }
    }
}

/// The clipboard with its synchronization state.
pub struct Clipboard<B: ClipboardBackend> {
    backend: B,
    state: ClipboardState,
}

impl<B: ClipboardBackend> Clipboard<B> {
    pub closed spec fn model(&self) -> ClipModel {
        self.state.model()
    }

    /// The uses of the external clipboard so far.
    pub closed spec fn effects(&self) -> Seq<Effect> {
        self.backend.log()
    }

    pub fn with_backend(backend: B) -> (c: Clipboard<B>)
        ensures
            c.model() == ClipModel::new(),
            c.effects() == backend.log(),
    {
        Clipboard { backend, state: ClipboardState::new() }
    }

    /// A clipboard with the same text and a lifecycle of its own: cloning
    /// editing state neither duplicates responsibility for publishing an
    /// in-flight command nor leaves the clone inside an unfinishable scope.
    pub fn fork(&self, backend: B) -> (c: Clipboard<B>)
        ensures
            c.model() == (ClipModel { fallback: self.model().fallback, ..ClipModel::new() }),
            c.effects() == backend.log(),
    {
        let mut state = ClipboardState::new();
        state.fallback = self.state.fallback.clone();
        Clipboard { backend, state }
    }

    fn publish(&mut self)
        ensures
            final(self).model() == old(self).model(),
            final(self).effects() == old(self).effects().push(
                Effect::Write(old(self).model().fallback),
            ),
    {
        let _ = self.backend.write(self.state.fallback.as_str());
    }

    /// Whether a scope is open.
    pub fn is_executing(&self) -> (res: bool)
        ensures
            res == (self.model().depth > 0),
    {
        self.state.execution_depth > 0
    }

    pub fn begin_execution(&mut self)
        requires
            old(self).model().depth < usize::MAX,
        ensures
            final(self).model() == old(self).model().begun(),
            final(self).effects() == old(self).effects(),
    {
        self.state.begin();
    }

    /// Leaves the innermost scope. Leaving the outermost one publishes the
    /// scope's final write, if it made any.
    pub fn end_execution(&mut self)
        requires
            old(self).model().depth > 0,
        ensures
            final(self).model() == old(self).model().ended(),
            final(self).effects() == old(self).effects() + old(self).model().end_effects(),
    {
        let publish = self.state.end();
        if publish {
            self.publish();
            proof {
                assert(self.effects() =~= old(self).effects() + old(self).model().end_effects());
            }
        } else {
            proof {
                assert(self.effects() =~= old(self).effects() + old(self).model().end_effects());
            }
        }
    }

    /// The clipboard's text.
    pub fn read(&mut self) -> (text: String)
        ensures
            old(self).model().reads_locally() ==> text@ == old(self).model().fallback
                && final(self).model() == old(self).model() && final(self).effects() == old(
                self,
            ).effects(),
            !old(self).model().reads_locally() ==> exists|reply: Option<Seq<char>>|
                {
                    &&& #[trigger] old(self).model().reply_text(reply) == text@
                    &&& final(self).model() == old(self).model().replied(reply)
                    &&& final(self).effects() == old(self).effects().push(Effect::Read(reply))
                },
    {
        if self.state.answers_locally() {
            return self.state.fallback.clone();
        }
        let reply = self.backend.read();
        let ghost view = reply_view(reply);
        let text = self.state.accept(reply);
        proof {
            assert(old(self).model().reply_text(view) == text@);
        }
        text
    }

    pub fn write(&mut self, text: String)
        ensures
            final(self).model() == old(self).model().written(text@),
            final(self).effects() == old(self).effects() + old(self).model().write_effects(text@),
    {
        let publish = self.state.replace(text);
        if publish {
            self.publish();
        }
        proof {
            assert(self.effects() =~= old(self).effects() + old(self).model().write_effects(text@));
        }
    }

    /// Publishes what waits.
    pub fn flush(&mut self)
        ensures
            final(self).model() == old(self).model().flushed(),
            final(self).effects() == old(self).effects() + old(self).model().flush_effects(),
    {
        let publish = self.state.flush();
        if publish {
            self.publish();
        }
        proof {
            assert(self.effects() =~= old(self).effects() + old(self).model().flush_effects());
        }
    }

    /// Makes the next read look at the external clipboard again, unless a
    /// write of the scope still waits.
    pub fn invalidate_snapshot(&mut self)
        ensures
            final(self).model() == old(self).model().invalidated(),
            final(self).effects() == old(self).effects(),
    {
        self.state.snapshot_valid = false;
    }
}

/// The state after a series of writes inside a scope.
pub open spec fn after_writes(m: ClipModel, texts: Seq<Seq<char>>) -> ClipModel
    decreases texts.len(),
{
    if texts.len() == 0 {
        m
    } else {
        after_writes(m, texts.drop_last()).written(texts.last())
    }
}

/// However many writes an outermost scope makes, closing it publishes exactly
/// one: the last.
pub proof fn only_the_final_write_is_published(m: ClipModel, texts: Seq<Seq<char>>)
    requires
        m.wf(),
        m.depth == 0,
    ensures
        ({
            let inside = after_writes(m.begun(), texts);
            &&& texts.len() > 0 ==> inside.end_effects() == seq![Effect::Write(texts.last())]
            &&& texts.len() == 0 ==> inside.end_effects() == Seq::<Effect>::empty()
            &&& inside.ended().depth == 0
            &&& inside.ended().wf()
        }),
{
    writes_in_scope(m.begun(), texts);
}

proof fn writes_in_scope(m: ClipModel, texts: Seq<Seq<char>>)
    requires
        m.depth > 0,
    ensures
        after_writes(m, texts).depth == m.depth,
        texts.len() == 0 ==> after_writes(m, texts) == m,
        texts.len() > 0 ==> after_writes(m, texts).pending && after_writes(m, texts).fallback
            == texts.last(),
    decreases texts.len(),
{
    if texts.len() > 0 {
        writes_in_scope(m, texts.drop_last());
    }
}

/// A scope that neither reads nor writes uses no external clipboard, and
/// leaves nothing to publish.
pub proof fn empty_scope_uses_nothing(m: ClipModel)
    requires
        m.wf(),
        m.depth == 0,
    ensures
        m.begun().end_effects() == Seq::<Effect>::empty(),
        m.begun().ended().fallback == m.fallback,
{
}

/// Inside a scope a read gives what was last written, whatever is invalidated
/// in between, and a nested scope publishes nothing.
pub proof fn pending_write_is_authoritative(m: ClipModel, text: Seq<char>)
    requires
        m.depth > 0,
    ensures
        m.written(text).reads_locally(),
        m.written(text).fallback == text,
        m.written(text).invalidated().reads_locally(),
        m.written(text).invalidated().fallback == text,
        m.written(text).begun().end_effects() == Seq::<Effect>::empty(),
        m.written(text).begun().ended().pending,
        m.written(text).begun().ended().fallback == text,
{
}

/// After a flush and an invalidation the next read asks the external
/// clipboard, and after a reply the scope keeps that snapshot.
pub proof fn external_boundary_refreshes(m: ClipModel, reply: Option<Seq<char>>)
    requires
        m.depth > 0,
    ensures
        !m.flushed().invalidated().reads_locally(),
        m.flushed().invalidated().replied(reply).reads_locally(),
        reply is Some ==> m.flushed().invalidated().replied(reply).fallback == reply->0,
        m.flushed().flush_effects() == Seq::<Effect>::empty(),
{
}

/// Every operation keeps the invariant that nothing waits outside scopes.
pub proof fn nothing_waits_outside_scopes(m: ClipModel, text: Seq<char>, reply: Option<Seq<char>>)
    requires
        m.wf(),
    ensures
        m.begun().wf(),
        m.depth > 0 ==> m.ended().wf(),
        m.flushed().wf(),
        m.invalidated().wf(),
        m.replied(reply).wf(),
        m.written(text).wf(),
{
}

} // verus!
