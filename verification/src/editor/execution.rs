//! Boundaries of synchronous command execution and of external effects.
//!
//! A scope batches clipboard synchronization, not edits or undo history.
//! Nested commands join the outer scope. A command that fails keeps its
//! completed edits and publishes their clipboard value.
use crate::editor::clipboard::ClipboardBackend;
use crate::editor::Editor;
use vstd::prelude::*;

verus! {

/// A scope was entered.
pub open spec fn scope_entered<B: ClipboardBackend>(before: Editor<B>, after: Editor<B>) -> bool {
    &&& after.wf()
    &&& after.model() == before.model()
    &&& after.registers.model() == before.registers.model()
    &&& after.registers.clip().model() == before.registers.clip().model().begun()
    &&& after.registers.clip().effects() == before.registers.clip().effects()
}

/// A scope was left. Registers that were put in place meanwhile, and are in no
/// scope, have none to leave.
pub open spec fn scope_left<B: ClipboardBackend>(before: Editor<B>, after: Editor<B>) -> bool {
    &&& after.wf()
    &&& after.model() == before.model()
    &&& after.registers.model() == before.registers.model()
    &&& if before.registers.clip().model().depth > 0 {
        &&& after.registers.clip().model() == before.registers.clip().model().ended()
        &&& after.registers.clip().effects() == before.registers.clip().effects()
            + before.registers.clip().model().end_effects()
    } else {
        &&& after.registers.clip().model() == before.registers.clip().model()
        &&& after.registers.clip().effects() == before.registers.clip().effects()
    }
}

/// What waited was published before external code.
pub open spec fn effects_entered<B: ClipboardBackend>(before: Editor<B>, after: Editor<B>) -> bool {
    &&& after.wf()
    &&& after.model() == before.model()
    &&& after.registers.model() == before.registers.model()
    &&& after.registers.clip().model() == before.registers.clip().model().flushed()
    &&& after.registers.clip().effects() == before.registers.clip().effects()
        + before.registers.clip().model().flush_effects()
}

/// The next read sees what external code did.
pub open spec fn effects_left<B: ClipboardBackend>(before: Editor<B>, after: Editor<B>) -> bool {
    &&& after.wf()
    &&& after.model() == before.model()
    &&& after.registers.model() == before.registers.model()
    &&& after.registers.clip().model() == before.registers.clip().model().invalidated()
    &&& after.registers.clip().effects() == before.registers.clip().effects()
}

impl<B: ClipboardBackend> Editor<B> {
    /// Whether the registers are in a unit of clipboard synchronization.
    pub fn is_executing(&self) -> (res: bool)
        ensures
            res == (self.registers.clip().model().depth > 0),
    {
        self.registers.is_executing()
    }

    /// Runs synchronous commands as one unit of clipboard synchronization.
    /// They may put other registers in place: those are in no scope, and are
    /// left as they are.
    pub fn with_execution_scope<R, F: FnOnce(&mut Editor<B>) -> R>(&mut self, run: F) -> (res: R)
        requires
            old(self).wf(),
            old(self).registers.clip().model().depth < usize::MAX,
            forall|e: &mut Editor<B>|
                scope_entered(*old(self), *e) ==> #[trigger] call_requires(run, (e,)),
            forall|e: &mut Editor<B>, r: R|
                scope_entered(*old(self), *e) && #[trigger] call_ensures(run, (e,), r)
                    ==> final(e).wf(),
        ensures
            exists|e: &mut Editor<B>|
                {
                    &&& scope_entered(*old(self), *e)
                    &&& #[trigger] call_ensures(run, (e,), res)
                    &&& scope_left(*final(e), *final(self))
                },
    {
        self.begin_execution_scope();
        let res = run(self);
        if self.is_executing() {
            self.end_execution_scope();
        }
        res
    }

    /// Publishes clipboard effects before external code runs, and makes the
    /// next read see what that code did to the clipboard.
    pub fn with_external_effects<R, F: FnOnce(&mut Editor<B>) -> R>(&mut self, run: F) -> (res: R)
        requires
            old(self).wf(),
            forall|e: &mut Editor<B>|
                effects_entered(*old(self), *e) ==> #[trigger] call_requires(run, (e,)),
            forall|e: &mut Editor<B>, r: R|
                effects_entered(*old(self), *e) && #[trigger] call_ensures(run, (e,), r)
                    ==> final(e).wf(),
        ensures
            exists|e: &mut Editor<B>|
                {
                    &&& effects_entered(*old(self), *e)
                    &&& #[trigger] call_ensures(run, (e,), res)
                    &&& effects_left(*final(e), *final(self))
                },
    {
        self.begin_external_effects();
        let res = run(self);
        self.end_external_effects();
        res
    }
}

} // verus!
