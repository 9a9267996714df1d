//! Which registers a command reads and writes.
use crate::editor::clipboard::{Clipboard, ClipboardBackend};
use crate::editor::register::{
    clip_read, clipboard_name, read_only_name, Content, RegisterManager, RegisterType, Registers,
};
use crate::editor::{Ed, Editor, InputState};
use crate::text::same_text;
use vstd::prelude::*;

verus! {

pub open spec fn no_register(input: InputState) -> InputState {
    InputState { pending_register: None, ..input }
}

/// Whether a command writes the clipboard: it was told to, or it was told
/// nothing and the unnamed register goes through the clipboard.
pub open spec fn writes_clipboard(pending: Option<char>, option: bool) -> bool {
    match pending {
        Some(c) => clipboard_name(c),
        None => option,
    }
}

/// The registers after a command stored a text. A register that cannot be
/// written leaves the text to the unnamed one.
pub open spec fn routed(
    r: Registers,
    pending: Option<char>,
    text: Seq<char>,
    reg_type: RegisterType,
    deleted: bool,
) -> Registers {
    match pending {
        Some(c) => if read_only_name(c) {
            r.set(None, text, reg_type)
        } else {
            r.set(pending, text, reg_type)
        },
        None => if deleted {
            r.deleted(text, reg_type)
        } else {
            r.yanked(text, reg_type)
        },
    }
}

/// A command stored a text: `after` are the registers `before` with it.
pub open spec fn stored<B: ClipboardBackend>(
    before: RegisterManager<B>,
    after: RegisterManager<B>,
    pending: Option<char>,
    option: bool,
    text: Seq<char>,
    reg_type: RegisterType,
    deleted: bool,
) -> bool {
    &&& after.wf()
    &&& after.model() == routed(before.model(), pending, text, reg_type, deleted)
    &&& if writes_clipboard(pending, option) {
        &&& after.clip().model() == before.clip().model().written(text)
        &&& after.clip().effects() == before.clip().effects()
            + before.clip().model().write_effects(text)
    } else {
        after.clip() == before.clip()
    }
}

/// A command read a text: from the register it was told, else from the
/// clipboard or from the unnamed register. Clipboard text that is the unnamed
/// register's has that register's type.
pub open spec fn fetched<B: ClipboardBackend>(
    before: RegisterManager<B>,
    after: RegisterManager<B>,
    pending: Option<char>,
    option: bool,
    res: Content,
) -> bool {
    &&& after.wf()
    &&& after.model() == before.model()
    &&& match pending {
        Some(c) => if clipboard_name(c) {
            res.1 is Character && clip_read(before.clip(), after.clip(), res.0)
        } else {
            res == before.model().content(pending) && after.clip() == before.clip()
        },
        None => if option {
            &&& clip_read(before.clip(), after.clip(), res.0)
            &&& res.1 == if res.0 == before.model().unnamed.0 {
                before.model().unnamed.1
            } else {
                RegisterType::Character
            }
        } else {
            res == before.model().unnamed && after.clip() == before.clip()
        },
    }
}

impl<B: ClipboardBackend> Editor<B> {
    /// The text and type that a paste takes.
    pub fn get_from_register_with_type(&mut self) -> (res: (String, RegisterType))
        requires
            old(self).wf(),
        ensures
            final(self).wf(),
            final(self).model() == (Ed {
                input: no_register(old(self).model().input),
                ..old(self).model()
            }),
            fetched(
                old(self).registers,
                final(self).registers,
                old(self).model().input.pending_register,
                old(self).model().options.clipboard,
                (res.0@, res.1),
            ),
    {
        let pending = self.input.pending_register;
        self.input.pending_register = None;
        match pending {
            Some(_) => self.registers.get_with_type(pending),
            None => if self.options.clipboard {
                let text = self.registers.get_clipboard();
                let (unnamed, unnamed_type) = self.registers.get_default_with_type();
                let reg_type = if same_text(text.as_str(), unnamed) {
                    unnamed_type
                } else {
                    RegisterType::Character
                };
                (text, reg_type)
            } else {
                self.registers.get_with_type(None)
            },
        }
    }

    fn store(&mut self, text: String, reg_type: RegisterType, deleted: bool)
        requires
            old(self).wf(),
        ensures
            final(self).wf(),
            final(self).model() == (Ed {
                input: no_register(old(self).model().input),
                ..old(self).model()
            }),
            stored(
                old(self).registers,
                final(self).registers,
                old(self).model().input.pending_register,
                old(self).model().options.clipboard,
                text@,
                reg_type,
                deleted,
            ),
    {
        let pending = self.input.pending_register;
        self.input.pending_register = None;
        match pending {
            Some(c) => {
                if c == '%' || c == '.' || c == ':' || c == '/' || c == '#' {
                    self.registers.set_with_type(None, text, reg_type);
                } else {
                    self.registers.set_with_type(pending, text, reg_type);
                }
            },
            None => {
                let copy = text.clone();
                if deleted {
                    self.registers.delete_with_type(text, reg_type);
                } else {
                    self.registers.yank_with_type(text, reg_type);
                }
                if self.options.clipboard {
                    self.registers.set_clipboard(copy);
                }
            },
        }
    }

    /// Stores a text that was copied.
    pub fn yank_to_register_with_type(&mut self, text: String, reg_type: RegisterType)
        requires
            old(self).wf(),
        ensures
            final(self).wf(),
            final(self).model() == (Ed {
                input: no_register(old(self).model().input),
                ..old(self).model()
            }),
            stored(
                old(self).registers,
                final(self).registers,
                old(self).model().input.pending_register,
                old(self).model().options.clipboard,
                text@,
                reg_type,
                false,
            ),
    {
        self.store(text, reg_type, false);
    }

    /// Stores a text that was deleted.
    pub fn delete_to_register_with_type(&mut self, text: String, reg_type: RegisterType)
        requires
            old(self).wf(),
        ensures
            final(self).wf(),
            final(self).model() == (Ed {
                input: no_register(old(self).model().input),
                ..old(self).model()
            }),
            stored(
                old(self).registers,
                final(self).registers,
                old(self).model().input.pending_register,
                old(self).model().options.clipboard,
                text@,
                reg_type,
                true,
            ),
    {
        self.store(text, reg_type, true);
    }

    /// Enters a unit of clipboard synchronization.
    pub fn begin_execution_scope(&mut self)
        requires
            old(self).wf(),
            old(self).registers.clip().model().depth < usize::MAX,
        ensures
            final(self).wf(),
            final(self).model() == old(self).model(),
            final(self).registers.model() == old(self).registers.model(),
            final(self).registers.clip().model() == old(self).registers.clip().model().begun(),
            final(self).registers.clip().effects() == old(self).registers.clip().effects(),
    {
        self.registers.begin_execution();
    }

    /// Leaves a unit of clipboard synchronization: the outermost one publishes
    /// its final write, whether its commands succeeded or not.
    pub fn end_execution_scope(&mut self)
        requires
            old(self).wf(),
            old(self).registers.clip().model().depth > 0,
        ensures
            final(self).wf(),
            final(self).model() == old(self).model(),
            final(self).registers.model() == old(self).registers.model(),
            final(self).registers.clip().model() == old(self).registers.clip().model().ended(),
            final(self).registers.clip().effects() == old(self).registers.clip().effects() + old(
                self,
            ).registers.clip().model().end_effects(),
    {
        self.registers.end_execution();
    }

    /// Publishes clipboard effects before external code runs.
    pub fn begin_external_effects(&mut self)
        requires
            old(self).wf(),
        ensures
            final(self).wf(),
            final(self).model() == old(self).model(),
            final(self).registers.model() == old(self).registers.model(),
            final(self).registers.clip().model() == old(self).registers.clip().model().flushed(),
            final(self).registers.clip().effects() == old(self).registers.clip().effects() + old(
                self,
            ).registers.clip().model().flush_effects(),
    {
        self.registers.begin_external();
    }

    /// Makes the next read see what external code did to the clipboard.
    pub fn end_external_effects(&mut self)
        requires
            old(self).wf(),
        ensures
            final(self).wf(),
            final(self).model() == old(self).model(),
            final(self).registers.model() == old(self).registers.model(),
            final(self).registers.clip().model()
                == old(self).registers.clip().model().invalidated(),
            final(self).registers.clip().effects() == old(self).registers.clip().effects(),
    {
        self.registers.end_external();
    }
}

impl<B: ClipboardBackend> Editor<B> {
    /// Puts other registers in place of those that there are, which are handed
    /// out. What these had still to publish is published first, so that it
    /// cannot overwrite what the new ones publish.
    pub fn replace_registers(&mut self, registers: RegisterManager<B>) -> (before: RegisterManager<B>)
        requires
            old(self).wf(),
            registers.wf(),
        ensures
            final(self).wf(),
            final(self).model() == old(self).model(),
            final(self).registers == registers,
            before.model() == old(self).registers.model(),
            before.clip().model() == old(self).registers.clip().model().flushed(),
            before.clip().effects() == old(self).registers.clip().effects() + old(
                self,
            ).registers.clip().model().flush_effects(),
    {
        self.registers.begin_external();
        let mut before = registers;
        std::mem::swap(&mut self.registers, &mut before);
        before
    }
}

/// What a command stored without naming a register is what a paste then
/// takes, with its type, inside one unit of clipboard synchronization.
pub proof fn paste_takes_what_was_stored<B: ClipboardBackend>(
    before: RegisterManager<B>,
    between: RegisterManager<B>,
    after: RegisterManager<B>,
    option: bool,
    text: Seq<char>,
    reg_type: RegisterType,
    deleted: bool,
    res: Content,
)
    requires
        before.clip().model().depth > 0,
        stored(before, between, None, option, text, reg_type, deleted),
        fetched(between, after, None, option, res),
    ensures
        res == (text, reg_type),
        after.clip().effects() == before.clip().effects(),
{
    if option {
        assert(before.clip().effects() + before.clip().model().write_effects(text)
            =~= before.clip().effects());
    }
}

} // verus!
