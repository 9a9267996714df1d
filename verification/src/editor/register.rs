//! Registers: named stores of text.
use crate::editor::clipboard::{Clipboard, ClipboardBackend, Effect, NoClipboard};
use crate::fmt::{decimal, digits};
use crate::text::chars_of;
use vstd::prelude::*;

verus! {

/// Type of content stored in a register
#[derive(Debug, Clone, Copy, PartialEq, Eq, Structural)]
pub enum RegisterType {
    /// Character-wise
    Character,
    /// Line-wise
    Line,
    /// Block-wise
    Block,
}

/// A text and its type.
pub type Content = (Seq<char>, RegisterType);

#[derive(Debug)]
struct RegisterContent {
    text: String,
    reg_type: RegisterType,
}

impl RegisterContent {
    spec fn view(&self) -> Content {
        (self.text@, self.reg_type)
    }

    fn new(text: String, reg_type: RegisterType) -> (c: RegisterContent)
        ensures
            c.view() == (text@, reg_type),
    {
        RegisterContent { text, reg_type }
    }

    fn copy(&self) -> (c: RegisterContent)
        ensures
            c.view() == self.view(),
    {
        RegisterContent { text: self.text.clone(), reg_type: self.reg_type }
    }

    fn parts(&self) -> (res: (String, RegisterType))
        ensures
            (res.0@, res.1) == self.view(),
    {
        (self.text.clone(), self.reg_type)
    }
}

/// In-memory register contents, independent of external clipboard access.
#[derive(Debug)]
struct RegisterStorage {
    /// Named registers, `a` to `z`
    named: Vec<Option<RegisterContent>>,
    /// The unnamed register
    unnamed: RegisterContent,
    /// The yank register (0)
    yank: RegisterContent,
    /// Delete registers (1-9), the latest first
    delete_history: Vec<RegisterContent>,
    /// Small delete register (-) for characterwise deletes without a line break
    small_delete: RegisterContent,
    current_file: String,
    alternate_file: String,
    last_inserted: String,
    last_command: String,
    last_search: String,
}

/// A model of the registers.
pub ghost struct Registers {
    pub named: Seq<Option<Content>>,
    pub unnamed: Content,
    pub yank: Content,
    pub deletes: Seq<Content>,
    pub small: Content,
    pub current_file: Seq<char>,
    pub alternate_file: Seq<char>,
    pub last_inserted: Seq<char>,
    pub last_command: Seq<char>,
    pub last_search: Seq<char>,
}

pub open spec fn nothing() -> Content {
    (Seq::empty(), RegisterType::Character)
}

pub open spec fn is_lower(c: char) -> bool {
    'a' <= c <= 'z'
}

pub open spec fn is_upper(c: char) -> bool {
    'A' <= c <= 'Z'
}

pub open spec fn is_digit(c: char) -> bool {
    '0' <= c <= '9'
}

/// The names of registers that cannot be written.
pub open spec fn read_only_name(c: char) -> bool {
    c == '%' || c == '.' || c == ':' || c == '/' || c == '#'
}

/// The names of the clipboard registers.
pub open spec fn clipboard_name(c: char) -> bool {
    c == '+' || c == '*'
}

/// The position of a letter, in either case.
pub open spec fn letter_index(c: char) -> int {
    if is_upper(c) {
        c as int - 'A' as int
    } else {
        c as int - 'a' as int
    }
}

/// A deletion goes into the small delete register where it is characterwise
/// and has no line break.
pub open spec fn is_small(text: Seq<char>, reg_type: RegisterType) -> bool {
    reg_type is Character && !text.contains('\n')
}

impl Registers {
    pub open spec fn new() -> Registers {
        Registers {
            named: Seq::new(26, |i: int| None),
            unnamed: nothing(),
            yank: nothing(),
            deletes: Seq::empty(),
            small: nothing(),
            current_file: Seq::empty(),
            alternate_file: Seq::empty(),
            last_inserted: Seq::empty(),
            last_command: Seq::empty(),
            last_search: Seq::empty(),
        }
    }

    /// A slot for each letter, and at most nine deletions.
    pub open spec fn wf(self) -> bool {
        self.named.len() == 26 && self.deletes.len() <= 9
    }

    pub open spec fn letter(self, c: char) -> Content {
        match self.named[letter_index(c)] {
            Some(content) => content,
            None => nothing(),
        }
    }

    /// What a register other than the clipboard's holds.
    pub open spec fn content(self, register: Option<char>) -> Content {
        match register {
            None => self.unnamed,
            Some(c) => if c == '"' {
                self.unnamed
            } else if c == '0' {
                self.yank
            } else if c == '%' {
                (self.current_file, RegisterType::Character)
            } else if c == '#' {
                (self.alternate_file, RegisterType::Character)
            } else if c == '.' {
                (self.last_inserted, RegisterType::Character)
            } else if c == ':' {
                (self.last_command, RegisterType::Character)
            } else if c == '/' {
                (self.last_search, RegisterType::Character)
            } else if c == '-' {
                self.small
            } else if is_digit(c) {
                let i = c as int - '1' as int;
                if i < self.deletes.len() {
                    self.deletes[i]
                } else {
                    nothing()
                }
            } else if is_lower(c) || is_upper(c) {
                self.letter(c)
            } else {
                nothing()
            },
        }
    }

    /// The registers after a write to one other than the clipboard's. Names
    /// that cannot be written, the black hole and unknown names change
    /// nothing; an upper-case letter appends.
    pub open spec fn set(self, register: Option<char>, text: Seq<char>, reg_type: RegisterType) -> Registers {
        let content = (text, reg_type);
        match register {
            None => Registers { unnamed: content, ..self },
            Some(c) => if read_only_name(c) || clipboard_name(c) {
                self
            } else if c == '"' {
                Registers { unnamed: content, ..self }
            } else if c == '0' {
                Registers { yank: content, ..self }
            } else if c == '-' {
                Registers { small: content, ..self }
            } else if is_lower(c) {
                Registers { named: self.named.update(letter_index(c), Some(content)), ..self }
            } else if is_upper(c) {
                Registers {
                    named: self.named.update(
                        letter_index(c),
                        Some(
                            match self.named[letter_index(c)] {
                                Some(before) => (before.0 + text, reg_type),
                                None => content,
                            },
                        ),
                    ),
                    ..self
                }
            } else {
                self
            },
        }
    }

    pub open spec fn yanked(self, text: Seq<char>, reg_type: RegisterType) -> Registers {
        Registers { unnamed: (text, reg_type), yank: (text, reg_type), ..self }
    }

    pub open spec fn deleted(self, text: Seq<char>, reg_type: RegisterType) -> Registers {
        let content = (text, reg_type);
        if is_small(text, reg_type) {
            Registers { unnamed: content, small: content, ..self }
        } else {
            let all = seq![content] + self.deletes;
            Registers {
                unnamed: content,
                deletes: if all.len() > 9 {
                    all.take(9)
                } else {
                    all
                },
                ..self
            }
        }
    }
}

/// Register facade coordinating owned register contents and clipboard access.
pub struct RegisterManager<B: ClipboardBackend> {
    storage: RegisterStorage,
    /// The + and * registers share one clipboard.
    clipboard: Clipboard<B>,
}

impl RegisterStorage {
    spec fn model(self) -> Registers {
        Registers {
            named: self.named@.map_values(
                |o: Option<RegisterContent>|
                    match o {
                        Some(c) => Some(c.view()),
                        None => None,
                    },
            ),
            unnamed: self.unnamed.view(),
            yank: self.yank.view(),
            deletes: self.delete_history@.map_values(|c: RegisterContent| c.view()),
            small: self.small_delete.view(),
            current_file: self.current_file@,
            alternate_file: self.alternate_file@,
            last_inserted: self.last_inserted@,
            last_command: self.last_command@,
            last_search: self.last_search@,
        }
    }

    fn new() -> (s: RegisterStorage)
        ensures
            s.model() == Registers::new(),
    {
        let mut named: Vec<Option<RegisterContent>> = Vec::new();
        let mut i: usize = 0;
        while i < 26
            invariant
                i <= 26,
                named.len() == i,
                forall|k: int| 0 <= k < i ==> named@[k] is None,
            decreases 26 - i,
        {
            named.push(None);
            i += 1;
        }
        let s = RegisterStorage {
            named,
            unnamed: RegisterContent::new(String::new(), RegisterType::Character),
            yank: RegisterContent::new(String::new(), RegisterType::Character),
            delete_history: Vec::new(),
            small_delete: RegisterContent::new(String::new(), RegisterType::Character),
            current_file: String::new(),
            alternate_file: String::new(),
            last_inserted: String::new(),
            last_command: String::new(),
            last_search: String::new(),
        };
        proof {
            assert(s.model().named =~= Registers::new().named);
            assert(s.model().deletes =~= Registers::new().deletes);
        }
        s
    }

    fn letter_content(&self, i: usize) -> (res: (String, RegisterType))
        requires
            i < self.named.len(),
        ensures
            (res.0@, res.1) == match self.model().named[i as int] {
                Some(c) => c,
                None => nothing(),
            },
    {
        match &self.named[i] {
            Some(c) => c.parts(),
            None => (String::new(), RegisterType::Character),
        }
    }

    fn content(&self, register: Option<char>) -> (res: (String, RegisterType))
        requires
            self.model().wf(),
        ensures
            (res.0@, res.1) == self.model().content(register),
    {
        let c = match register {
            None => return self.unnamed.parts(),
            Some(c) => c,
        };
        if c == '"' {
            self.unnamed.parts()
        } else if c == '0' {
            self.yank.parts()
        } else if c == '%' {
            (self.current_file.clone(), RegisterType::Character)
        } else if c == '#' {
            (self.alternate_file.clone(), RegisterType::Character)
        } else if c == '.' {
            (self.last_inserted.clone(), RegisterType::Character)
        } else if c == ':' {
            (self.last_command.clone(), RegisterType::Character)
        } else if c == '/' {
            (self.last_search.clone(), RegisterType::Character)
        } else if c == '-' {
            self.small_delete.parts()
        } else if '0' <= c && c <= '9' {
            let i: usize = (c as u32 - 49) as usize;
            if i < self.delete_history.len() {
                proof {
                    assert(self.model().deletes[i as int] == self.delete_history@[i as int].view());
                }
                self.delete_history[i].parts()
            } else {
                (String::new(), RegisterType::Character)
            }
        } else if 'a' <= c && c <= 'z' {
            self.letter_content((c as u32 - 97) as usize)
        } else if 'A' <= c && c <= 'Z' {
            self.letter_content((c as u32 - 65) as usize)
        } else {
            (String::new(), RegisterType::Character)
        }
    }

    fn set_letter(&mut self, i: usize, content: RegisterContent)
        requires
            i < old(self).named.len(),
        ensures
            final(self).model() == (Registers {
                named: old(self).model().named.update(i as int, Some(content.view())),
                ..old(self).model()
            }),
    {
        self.named[i] = Some(content);
        proof {
            assert(self.model().named =~= old(self).model().named.update(
                i as int,
                Some(content.view()),
            ));
        }
    }

    fn set(&mut self, register: Option<char>, text: String, reg_type: RegisterType)
        requires
            old(self).model().wf(),
        ensures
            final(self).model() == old(self).model().set(register, text@, reg_type),
    {
        let content = RegisterContent::new(text, reg_type);
        let c = match register {
            None => {
                self.unnamed = content;
                return;
            },
            Some(c) => c,
        };
        if c == '"' {
            self.unnamed = content;
        } else if c == '0' {
            self.yank = content;
        } else if c == '-' {
            self.small_delete = content;
        } else if 'a' <= c && c <= 'z' {
            self.set_letter((c as u32 - 97) as usize, content);
        } else if 'A' <= c && c <= 'Z' {
            // Upper case appends to the letter's register.
            let i: usize = (c as u32 - 65) as usize;
            let joined = match &self.named[i] {
                Some(before) => {
                    let mut all = before.text.clone();
                    all.append(content.text.as_str());
                    RegisterContent::new(all, reg_type)
                },
                None => content,
            };
            self.set_letter(i, joined);
        }
    }

    fn deleted(&mut self, text: String, reg_type: RegisterType)
        requires
            old(self).model().wf(),
        ensures
            final(self).model() == old(self).model().deleted(text@, reg_type),
    {
        let small = match reg_type {
            RegisterType::Character => !has_line_break(text.as_str()),
            _ => false,
        };
        let content = RegisterContent::new(text, reg_type);
        let ghost view = content.view();
        self.unnamed = content.copy();
        if small {
            self.small_delete = content;
        } else {
            let ghost before = self.model().deletes;
            self.delete_history.insert(0, content);
            if self.delete_history.len() > 9 {
                self.delete_history.truncate(9);
            }
            proof {
                let all = seq![view] + before;
                assert(self.model().deletes =~= if all.len() > 9 {
                    all.take(9)
                } else {
                    all
                });
            }
        }
    }
}

fn has_line_break(text: &str) -> (res: bool)
    ensures
        res == text@.contains('\n'),
{
    let cs = chars_of(text);
    let mut i: usize = 0;
    while i < cs.len()
        invariant
            i <= cs.len(),
            cs@ == text@,
            forall|k: int| 0 <= k < i ==> cs@[k] != '\n',
        decreases cs.len() - i,
    {
        if cs[i] == '\n' {
            proof {
                assert(text@[i as int] == '\n');
            }
            return true;
        }
        i += 1;
    }
    false
}

/// A text for display: line feeds shown as `^J`, cut after `max` characters.
pub open spec fn shown_breaks(t: Seq<char>, k: int) -> Seq<char>
    decreases k,
{
    if k <= 0 || k > t.len() {
        Seq::empty()
    } else if t[k - 1] == '\n' {
        shown_breaks(t, k - 1).push('^').push('J')
    } else {
        shown_breaks(t, k - 1).push(t[k - 1])
    }
}

pub open spec fn shortened(t: Seq<char>, max: int) -> Seq<char> {
    let s = shown_breaks(t, t.len() as int);
    if s.len() > max {
        s.take(max) + "..."@
    } else {
        s
    }
}

fn truncate(text: &str, max: usize) -> (s: String)
    ensures
        s@ == shortened(text@, max as int),
{
    let cs = chars_of(text);
    let mut shown: Vec<char> = Vec::new();
    let mut i: usize = 0;
    while i < cs.len()
        invariant
            i <= cs.len(),
            cs@ == text@,
            shown@ == shown_breaks(text@, i as int),
        decreases cs.len() - i,
    {
        if cs[i] == '\n' {
            shown.push('^');
            shown.push('J');
        } else {
            shown.push(cs[i]);
        }
        i += 1;
    }
    if shown.len() > max {
        let mut s = crate::text::slice_string(&shown, 0, max);
        proof {
            assert(s@ =~= shown@.take(max as int));
        }
        s.append("...");
        s
    } else {
        crate::text::string_of(&shown)
    }
}

/// A register's entry in the list: nothing where it is empty.
pub open spec fn entry(name: Seq<char>, text: Seq<char>) -> Seq<(Seq<char>, Seq<char>)> {
    if text.len() > 0 {
        seq![(name, shortened(text, 50))]
    } else {
        Seq::empty()
    }
}

/// The entries of the first `k` deletions.
pub open spec fn delete_entries(deletes: Seq<Content>, k: int) -> Seq<(Seq<char>, Seq<char>)>
    decreases k,
{
    if k <= 0 || k > deletes.len() {
        Seq::empty()
    } else {
        delete_entries(deletes, k - 1) + entry(
            "\""@ + digits(k as nat),
            deletes[k - 1].0,
        )
    }
}

/// The entries of the first `k` letters.
pub open spec fn letter_entries(named: Seq<Option<Content>>, k: int) -> Seq<
    (Seq<char>, Seq<char>),
>
    decreases k,
{
    if k <= 0 || k > named.len() {
        Seq::empty()
    } else {
        letter_entries(named, k - 1) + match named[k - 1] {
            Some(content) => entry("\""@.push((97 + k - 1) as char), content.0),
            None => Seq::empty(),
        }
    }
}

/// The list of all registers that are not empty.
pub open spec fn listing(r: Registers, clipboard: Seq<char>) -> Seq<(Seq<char>, Seq<char>)> {
    entry("\"\""@, r.unnamed.0) + entry("\"0"@, r.yank.0) + delete_entries(
        r.deletes,
        r.deletes.len() as int,
    ) + entry("\"-"@, r.small.0) + letter_entries(r.named, 26) + entry(
        "\"%"@,
        r.current_file,
    ) + entry("\"#"@, r.alternate_file) + entry("\"/"@, r.last_search) + entry(
        "\":"@,
        r.last_command,
    ) + entry("\"."@, r.last_inserted) + entry("\"+"@, clipboard)
}

pub open spec fn pairs_view(list: Seq<(String, String)>) -> Seq<(Seq<char>, Seq<char>)> {
    list.map_values(|p: (String, String)| (p.0@, p.1@))
}

fn push_entry(list: &mut Vec<(String, String)>, name: String, text: &str)
    ensures
        pairs_view(final(list)@) == pairs_view(old(list)@) + entry(name@, text@),
{
    let ghost before = pairs_view(list@);
    if text.unicode_len() > 0 {
        let shown = truncate(text, 50);
        list.push((name, shown));
    }
    proof {
        assert(pairs_view(list@) =~= before + entry(name@, text@));
    }
}

impl RegisterManager<NoClipboard> {
    /// Empty registers without a clipboard outside the editor: what is written
    /// to the clipboard's registers stays here.
    pub fn new() -> (r: Self)
        ensures
            r.wf(),
            r.model() == Registers::new(),
            r.clip().model() == crate::editor::clipboard::ClipModel::new(),
            r.clip().effects() == Seq::<Effect>::empty(),
    {
        Self::with_clipboard_backend(NoClipboard::new())
    }
}

impl<B: ClipboardBackend> RegisterManager<B> {
    pub closed spec fn model(&self) -> Registers {
        self.storage.model()
    }

    pub closed spec fn clip(&self) -> Clipboard<B> {
        self.clipboard
    }

    /// There is a slot for each letter, and at most nine deletions are kept.
    pub open spec fn wf(&self) -> bool {
        self.model().wf()
    }

    /// Register names accepted by the input prefix.
    pub fn is_valid_name(register: char) -> (res: bool)
        ensures
            res == (is_digit(register) || is_lower(register) || is_upper(register)
                || read_only_name(register) || clipboard_name(register) || register == '"'
                || register == '_' || register == '-'),
    {
        ('0' <= register && register <= '9') || ('a' <= register && register <= 'z') || ('A'
            <= register && register <= 'Z') || register == '"' || register == '_' || register
            == '-' || register == '+' || register == '*' || register == '%' || register == '.'
            || register == ':' || register == '#' || register == '/'
    }

    /// Empty registers over a clipboard.
    pub fn with_clipboard_backend(backend: B) -> (r: Self)
        ensures
            r.wf(),
            r.model() == Registers::new(),
            r.clip().model() == crate::editor::clipboard::ClipModel::new(),
            r.clip().effects() == backend.log(),
    {
        RegisterManager {
            storage: RegisterStorage::new(),
            clipboard: Clipboard::with_backend(backend),
        }
    }

    /// Whether a command execution scope is open.
    pub fn is_executing(&self) -> (res: bool)
        ensures
            res == (self.clip().model().depth > 0),
    {
        self.clipboard.is_executing()
    }

    /// Enters a command execution scope.
    pub fn begin_execution(&mut self)
        requires
            old(self).wf(),
            old(self).clip().model().depth < usize::MAX,
        ensures
            final(self).wf(),
            final(self).model() == old(self).model(),
            final(self).clip().model() == old(self).clip().model().begun(),
            final(self).clip().effects() == old(self).clip().effects(),
    {
        self.clipboard.begin_execution();
    }

    /// Leaves a command execution scope.
    pub fn end_execution(&mut self)
        requires
            old(self).wf(),
            old(self).clip().model().depth > 0,
        ensures
            final(self).wf(),
            final(self).model() == old(self).model(),
            final(self).clip().model() == old(self).clip().model().ended(),
            final(self).clip().effects() == old(self).clip().effects() + old(
                self,
            ).clip().model().end_effects(),
    {
        self.clipboard.end_execution();
    }

    /// Publishes pending writes before external code runs.
    pub fn begin_external(&mut self)
        requires
            old(self).wf(),
        ensures
            final(self).wf(),
            final(self).model() == old(self).model(),
            final(self).clip().model() == old(self).clip().model().flushed(),
            final(self).clip().effects() == old(self).clip().effects() + old(
                self,
            ).clip().model().flush_effects(),
    {
        self.clipboard.flush();
    }

    /// Looks at the clipboard afresh after external code ran.
    pub fn end_external(&mut self)
        requires
            old(self).wf(),
        ensures
            final(self).wf(),
            final(self).model() == old(self).model(),
            final(self).clip().model() == old(self).clip().model().invalidated(),
            final(self).clip().effects() == old(self).clip().effects(),
    {
        self.clipboard.invalidate_snapshot();
    }

    /// Sets a register, characterwise.
    pub fn set(&mut self, register: Option<char>, value: String)
        requires
            old(self).wf(),
        ensures
            final(self).wf(),
            register matches Some(c) && clipboard_name(c) ==> final(self).model() == old(
                self,
            ).model() && final(self).clip().model() == old(self).clip().model().written(value@)
                && final(self).clip().effects() == old(self).clip().effects() + old(
                self,
            ).clip().model().write_effects(value@),
            !(register matches Some(c) && clipboard_name(c)) ==> final(self).model() == old(
                self,
            ).model().set(register, value@, RegisterType::Character) && final(self).clip() == old(
                self,
            ).clip(),
    {
        self.set_with_type(register, value, RegisterType::Character);
    }

    /// Whether a register cannot be written.
    pub fn is_read_only(register: char) -> (res: bool)
        ensures
            res == read_only_name(register),
    {
        register == '%' || register == '.' || register == ':' || register == '/' || register
            == '#'
    }

    /// Sets a register with explicit type. Writes to read-only registers are
    /// ignored.
    pub fn set_with_type(&mut self, register: Option<char>, value: String, reg_type: RegisterType)
        requires
            old(self).wf(),
        ensures
            final(self).wf(),
            register matches Some(c) && clipboard_name(c) ==> final(self).model() == old(
                self,
            ).model() && final(self).clip().model() == old(self).clip().model().written(value@)
                && final(self).clip().effects() == old(self).clip().effects() + old(
                self,
            ).clip().model().write_effects(value@),
            !(register matches Some(c) && clipboard_name(c)) ==> final(self).model() == old(
                self,
            ).model().set(register, value@, reg_type) && final(self).clip() == old(self).clip(),
    {
        if let Some(c) = register {
            if c == '+' || c == '*' {
                self.clipboard.write(value);
                return;
            }
            if Self::is_read_only(c) {
                return;
            }
        }
        self.storage.set(register, value, reg_type);
    }

    /// Gets a register's text.
    pub fn get(&mut self, register: Option<char>) -> (text: String)
        requires
            old(self).wf(),
        ensures
            final(self).wf(),
            final(self).model() == old(self).model(),
            !(register matches Some(c) && clipboard_name(c)) ==> text@ == old(
                self,
            ).model().content(register).0 && final(self).clip() == old(self).clip(),
            register matches Some(c) && clipboard_name(c) ==> clip_read(
                old(self).clip(),
                final(self).clip(),
                text@,
            ),
    {
        self.get_with_type(register).0
    }

    /// Gets a register's text and type.
    pub fn get_with_type(&mut self, register: Option<char>) -> (res: (String, RegisterType))
        requires
            old(self).wf(),
        ensures
            final(self).wf(),
            final(self).model() == old(self).model(),
            !(register matches Some(c) && clipboard_name(c)) ==> (res.0@, res.1) == old(
                self,
            ).model().content(register) && final(self).clip() == old(self).clip(),
            register matches Some(c) && clipboard_name(c) ==> res.1 is Character && clip_read(
                old(self).clip(),
                final(self).clip(),
                res.0@,
            ),
    {
        if let Some(c) = register {
            if c == '+' || c == '*' {
                return (self.clipboard.read(), RegisterType::Character);
            }
        }
        self.storage.content(register)
    }

    /// Stores text in the unnamed register and the yank register.
    pub fn yank(&mut self, text: String)
        requires
            old(self).wf(),
        ensures
            final(self).wf(),
            final(self).model() == old(self).model().yanked(text@, RegisterType::Character),
            final(self).clip() == old(self).clip(),
    {
        self.yank_with_type(text, RegisterType::Character);
    }

    /// Stores text in the unnamed register and the yank register.
    pub fn yank_with_type(&mut self, text: String, reg_type: RegisterType)
        requires
            old(self).wf(),
        ensures
            final(self).wf(),
            final(self).model() == old(self).model().yanked(text@, reg_type),
            final(self).clip() == old(self).clip(),
    {
        let content = RegisterContent::new(text, reg_type);
        self.storage.unnamed = content.copy();
        self.storage.yank = content;
    }

    /// Stores deleted text, characterwise.
    pub fn delete(&mut self, text: String)
        requires
            old(self).wf(),
        ensures
            final(self).wf(),
            final(self).model() == old(self).model().deleted(text@, RegisterType::Character),
            final(self).clip() == old(self).clip(),
    {
        self.delete_with_type(text, RegisterType::Character);
    }

    /// Stores deleted text in the unnamed register, plus either the small
    /// delete register or the numbered delete history according to its shape.
    pub fn delete_with_type(&mut self, text: String, reg_type: RegisterType)
        requires
            old(self).wf(),
        ensures
            final(self).wf(),
            final(self).model() == old(self).model().deleted(text@, reg_type),
            final(self).clip() == old(self).clip(),
    {
        self.storage.deleted(text, reg_type);
    }

    /// The unnamed register's text.
    pub fn get_default(&self) -> (text: &str)
        ensures
            text@ == self.model().unnamed.0,
    {
        self.storage.unnamed.text.as_str()
    }

    /// The unnamed register's text and type.
    pub fn get_default_with_type(&self) -> (res: (&str, RegisterType))
        ensures
            (res.0@, res.1) == self.model().unnamed,
    {
        (self.storage.unnamed.text.as_str(), self.storage.unnamed.reg_type)
    }

    /// Updates the current file name (% register)
    pub fn set_current_file(&mut self, path: String)
        requires
            old(self).wf(),
        ensures
            final(self).wf(),
            final(self).model() == (Registers { current_file: path@, ..old(self).model() }),
            final(self).clip() == old(self).clip(),
    {
        self.storage.current_file = path;
    }

    /// Updates the alternate file name (# register)
    pub fn set_alternate_file(&mut self, path: String)
        requires
            old(self).wf(),
        ensures
            final(self).wf(),
            final(self).model() == (Registers { alternate_file: path@, ..old(self).model() }),
            final(self).clip() == old(self).clip(),
    {
        self.storage.alternate_file = path;
    }

    /// Updates the last inserted text (. register)
    pub fn set_last_inserted(&mut self, text: String)
        requires
            old(self).wf(),
        ensures
            final(self).wf(),
            final(self).model() == (Registers { last_inserted: text@, ..old(self).model() }),
            final(self).clip() == old(self).clip(),
    {
        self.storage.last_inserted = text;
    }

    /// Updates the last command (: register)
    pub fn set_last_command(&mut self, command: String)
        requires
            old(self).wf(),
        ensures
            final(self).wf(),
            final(self).model() == (Registers { last_command: command@, ..old(self).model() }),
            final(self).clip() == old(self).clip(),
    {
        self.storage.last_command = command;
    }

    /// Updates the last search pattern (/ register)
    pub fn set_last_search(&mut self, pattern: String)
        requires
            old(self).wf(),
        ensures
            final(self).wf(),
            final(self).model() == (Registers { last_search: pattern@, ..old(self).model() }),
            final(self).clip() == old(self).clip(),
    {
        self.storage.last_search = pattern;
    }

    /// Updates the clipboard registers (+ and *)
    pub fn set_clipboard(&mut self, text: String)
        requires
            old(self).wf(),
        ensures
            final(self).wf(),
            final(self).model() == old(self).model(),
            final(self).clip().model() == old(self).clip().model().written(text@),
            final(self).clip().effects() == old(self).clip().effects() + old(
                self,
            ).clip().model().write_effects(text@),
    {
        self.clipboard.write(text);
    }

    pub fn get_current_file(&self) -> (s: &str)
        ensures
            s@ == self.model().current_file,
    {
        self.storage.current_file.as_str()
    }

    pub fn get_alternate_file(&self) -> (s: &str)
        ensures
            s@ == self.model().alternate_file,
    {
        self.storage.alternate_file.as_str()
    }

    pub fn get_last_inserted(&self) -> (s: &str)
        ensures
            s@ == self.model().last_inserted,
    {
        self.storage.last_inserted.as_str()
    }

    pub fn get_last_command(&self) -> (s: &str)
        ensures
            s@ == self.model().last_command,
    {
        self.storage.last_command.as_str()
    }

    pub fn get_last_search(&self) -> (s: &str)
        ensures
            s@ == self.model().last_search,
    {
        self.storage.last_search.as_str()
    }

    /// The clipboard's text.
    pub fn get_clipboard(&mut self) -> (text: String)
        requires
            old(self).wf(),
        ensures
            final(self).wf(),
            final(self).model() == old(self).model(),
            clip_read(old(self).clip(), final(self).clip(), text@),
    {
        self.clipboard.read()
    }

    /// Lists all registers that are not empty, with their contents shortened
    /// for display.
    pub fn list_registers(&mut self) -> (list: Vec<(String, String)>)
        requires
            old(self).wf(),
        ensures
            final(self).wf(),
            final(self).model() == old(self).model(),
            exists|text: Seq<char>| #[trigger]
                clip_read(old(self).clip(), final(self).clip(), text) && pairs_view(list@)
                    == listing(old(self).model(), text),
    {
        let clipboard = self.clipboard.read();
        let ghost r = self.storage.model();
        let mut list: Vec<(String, String)> = Vec::new();
        let s = &self.storage;
        proof {
            assert(pairs_view(list@) =~= Seq::<(Seq<char>, Seq<char>)>::empty());
            assert(Seq::<(Seq<char>, Seq<char>)>::empty() + entry("\"\""@, r.unnamed.0) =~= entry(
                "\"\""@,
                r.unnamed.0,
            ));
        }
        push_entry(&mut list, "\"\"".to_owned(), s.unnamed.text.as_str());
        push_entry(&mut list, "\"0".to_owned(), s.yank.text.as_str());
        let ghost head = pairs_view(list@);
        let mut k: usize = 0;
        proof {
            assert(head + delete_entries(r.deletes, 0) =~= head);
        }
        while k < s.delete_history.len()
            invariant
                k <= s.delete_history.len(),
                s.delete_history.len() <= 9,
                r == s.model(),
                pairs_view(list@) == head + delete_entries(r.deletes, k as int),
            decreases s.delete_history.len() - k,
        {
            let mut name = "\"".to_owned();
            name.append(decimal(k as u64 + 1).as_str());
            proof {
                assert(r.deletes[k as int] == s.delete_history@[k as int].view());
            }
            push_entry(&mut list, name, s.delete_history[k].text.as_str());
            k += 1;
            proof {
                assert(pairs_view(list@) =~= head + delete_entries(r.deletes, k as int));
            }
        }
        push_entry(&mut list, "\"-".to_owned(), s.small_delete.text.as_str());
        let ghost middle = pairs_view(list@);
        let mut k: usize = 0;
        proof {
            assert(middle + letter_entries(r.named, 0) =~= middle);
        }
        while k < 26
            invariant
                k <= 26,
                s.named.len() == 26,
                r == s.model(),
                pairs_view(list@) == middle + letter_entries(r.named, k as int),
            decreases 26 - k,
        {
            if let Some(content) = &s.named[k] {
                let mut name = "\"".to_owned();
                let letter: u8 = 97 + k as u8;
                name.push(letter as char);
                push_entry(&mut list, name, content.text.as_str());
            }
            k += 1;
            proof {
                assert(r.named[k - 1] == match s.named@[k - 1] {
                    Some(c) => Some(c.view()),
                    None => None,
                });
                assert(pairs_view(list@) =~= middle + letter_entries(r.named, k as int));
            }
        }
        push_entry(&mut list, "\"%".to_owned(), s.current_file.as_str());
        push_entry(&mut list, "\"#".to_owned(), s.alternate_file.as_str());
        push_entry(&mut list, "\"/".to_owned(), s.last_search.as_str());
        push_entry(&mut list, "\":".to_owned(), s.last_command.as_str());
        push_entry(&mut list, "\".".to_owned(), s.last_inserted.as_str());
        push_entry(&mut list, "\"+".to_owned(), clipboard.as_str());
        proof {
            assert(pairs_view(list@) =~= listing(r, clipboard@));
            assert(clip_read(old(self).clip(), self.clip(), clipboard@));
        }
        list
    }
}

/// A read of the clipboard gave `text`: the scope's own write or snapshot
/// where there is one, else what the external clipboard replied or, where it
/// did not, the latest known text.
pub open spec fn clip_read<B: ClipboardBackend>(
    before: Clipboard<B>,
    after: Clipboard<B>,
    text: Seq<char>,
) -> bool {
    if before.model().reads_locally() {
        text == before.model().fallback && after.model() == before.model() && after.effects()
            == before.effects()
    } else {
        exists|reply: Option<Seq<char>>|
            {
                &&& #[trigger] before.model().reply_text(reply) == text
                &&& after.model() == before.model().replied(reply)
                &&& after.effects() == before.effects().push(Effect::Read(reply))
            }
    }
}

/// What was written to a register that can be written is read back from it;
/// writing to a letter in upper case appends.
pub proof fn register_read_back(
    r: Registers,
    c: char,
    text: Seq<char>,
    reg_type: RegisterType,
)
    requires
        r.wf(),
    ensures
        is_lower(c) || c == '"' || c == '0' || c == '-' ==> r.set(Some(c), text, reg_type).content(
            Some(c),
        ) == (text, reg_type),
        is_upper(c) ==> r.set(Some(c), text, reg_type).content(Some(c)) == (
            r.content(Some(c)).0 + text,
            reg_type,
        ),
        read_only_name(c) || c == '_' ==> r.set(Some(c), text, reg_type) == r,
        r.content(Some('_')) == nothing(),
        r.set(None, text, reg_type).content(None) == (text, reg_type),
        r.set(Some(c), text, reg_type).wf(),
{
    if is_upper(c) {
        assert(Seq::<char>::empty() + text =~= text);
    }
}

/// A write to one register leaves what the others hold.
pub proof fn register_write_is_local(
    r: Registers,
    c: char,
    d: char,
    text: Seq<char>,
    reg_type: RegisterType,
)
    requires
        r.wf(),
        c != d,
        letter_index(c) != letter_index(d) || !(is_lower(c) || is_upper(c)) || !(is_lower(d)
            || is_upper(d)),
    ensures
        r.set(Some(c), text, reg_type).content(Some(d)) == r.content(Some(d)),
{
}

/// Deletions that are not small move through the numbered registers: the new
/// one is in `1`, each earlier one moves on, and the ninth is dropped.
pub proof fn deletions_rotate(r: Registers, text: Seq<char>, reg_type: RegisterType, i: int)
    requires
        r.wf(),
        !is_small(text, reg_type),
        0 <= i < 8,
    ensures
        r.deleted(text, reg_type).wf(),
        r.deleted(text, reg_type).deletes[0] == (text, reg_type),
        i < r.deletes.len() ==> r.deleted(text, reg_type).deletes[i + 1] == r.deletes[i],
        r.deleted(text, reg_type).small == r.small,
        r.deleted(text, reg_type).yank == r.yank,
{
}

/// A small deletion leaves the numbered registers and the yank register.
pub proof fn small_deletions_keep_history(r: Registers, text: Seq<char>)
    requires
        !text.contains('\n'),
    ensures
        r.deleted(text, RegisterType::Character).deletes == r.deletes,
        r.deleted(text, RegisterType::Character).yank == r.yank,
        r.deleted(text, RegisterType::Character).content(Some('-')) == (
            text,
            RegisterType::Character,
        ),
{
}

} // verus!
