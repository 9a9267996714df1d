//! What the names of registers stand for, said of the names themselves.
use crate::editor::clipboard::ClipboardBackend;
use crate::editor::register::{Content, RegisterManager, RegisterType, Registers};
use crate::editor::routing::{fetched, routed, writes_clipboard};
use vstd::prelude::*;

verus! {

/// A letter in lower case and the same letter in upper case.
pub open spec fn same_letter(lower: char, upper: char) -> bool {
    'a' <= lower <= 'z' && upper as u32 + 32 == lower as u32
}

/// A register whose text the editor alone sets.
pub open spec fn set_by_the_editor(c: char) -> bool {
    c == '%' || c == '#' || c == '.' || c == ':' || c == '/'
}

/// What is not written yet is the empty text.
pub open spec fn empty_content() -> Content {
    (Seq::empty(), RegisterType::Character)
}

/// What each name reads: the unnamed register, the last copy, the file names,
/// the last insertion, command and search, the last small deletion, and the
/// ninth of the deletions at most. A letter reads the same in either case, and
/// the black hole reads nothing.
pub proof fn names_read_their_registers(r: Registers, lower: char, upper: char, i: int)
    requires
        r.wf(),
        same_letter(lower, upper),
        0 <= i < 9,
    ensures
        r.content(None) == r.unnamed,
        r.content(Some('"')) == r.unnamed,
        r.content(Some('0')) == r.yank,
        r.content(Some('%')) == (r.current_file, RegisterType::Character),
        r.content(Some('#')) == (r.alternate_file, RegisterType::Character),
        r.content(Some('.')) == (r.last_inserted, RegisterType::Character),
        r.content(Some(':')) == (r.last_command, RegisterType::Character),
        r.content(Some('/')) == (r.last_search, RegisterType::Character),
        r.content(Some('-')) == r.small,
        r.content(Some('_')) == empty_content(),
        r.content(Some(('1' as int + i) as char)) == if i < r.deletes.len() {
            r.deletes[i]
        } else {
            empty_content()
        },
        r.content(Some(upper)) == r.content(Some(lower)),
        r.content(Some(lower)) == match r.named[lower as int - 'a' as int] {
            Some(c) => c,
            None => empty_content(),
        },
{
    let c = ('1' as int + i) as char;
    assert(c as int == 49 + i);
}

/// What a write does: a letter in lower case takes the text, in upper case it
/// has the text behind what it held; the unnamed register, the last copy and
/// the last small deletion take it; the names that the editor sets, the black
/// hole and the clipboard's names leave these registers as they are. No other
/// register changes.
pub proof fn names_write_their_registers(
    r: Registers,
    lower: char,
    upper: char,
    other: char,
    text: Seq<char>,
    reg_type: RegisterType,
)
    requires
        r.wf(),
        same_letter(lower, upper),
        set_by_the_editor(other) || other == '_' || other == '+' || other == '*' || '1' <= other
            <= '9',
    ensures
        r.set(Some(lower), text, reg_type) == (Registers {
            named: r.named.update(lower as int - 'a' as int, Some((text, reg_type))),
            ..r
        }),
        r.set(Some(upper), text, reg_type) == (Registers {
            named: r.named.update(
                lower as int - 'a' as int,
                Some((r.content(Some(lower)).0 + text, reg_type)),
            ),
            ..r
        }),
        r.set(Some(other), text, reg_type) == r,
        r.set(Some('"'), text, reg_type) == (Registers { unnamed: (text, reg_type), ..r }),
        r.set(None, text, reg_type) == (Registers { unnamed: (text, reg_type), ..r }),
        r.set(Some('0'), text, reg_type) == (Registers { yank: (text, reg_type), ..r }),
        r.set(Some('-'), text, reg_type) == (Registers { small: (text, reg_type), ..r }),
{
    assert(Seq::<char>::empty() + text =~= text);
}

/// Where a command puts its text when no register is named: a copy goes to the
/// unnamed register and to that of the last copy; a deletion of characters of
/// one line goes to the unnamed register and to that of small deletions, any
/// other to the unnamed one and to the first of the numbered ones, which move
/// on.
pub proof fn unnamed_texts_go_to_their_registers(
    r: Registers,
    text: Seq<char>,
    reg_type: RegisterType,
)
    requires
        r.wf(),
    ensures
        routed(r, None, text, reg_type, false) == (Registers {
            unnamed: (text, reg_type),
            yank: (text, reg_type),
            ..r
        }),
        reg_type is Character && !text.contains('\n') ==> routed(r, None, text, reg_type, true) == (
        Registers { unnamed: (text, reg_type), small: (text, reg_type), ..r }),
        !(reg_type is Character) || text.contains('\n') ==> ({
            let after = routed(r, None, text, reg_type, true);
            &&& after == (Registers { unnamed: (text, reg_type), deletes: after.deletes, ..r })
            &&& after.deletes[0] == (text, reg_type)
            &&& after.deletes.len() == if r.deletes.len() < 9 {
                r.deletes.len() + 1
            } else {
                9
            }
            &&& forall|i: int|
                1 <= i < after.deletes.len() ==> #[trigger] after.deletes[i] == r.deletes[i - 1]
        }),
{
}

/// Where a command puts its text when a register is named: there; and into the
/// unnamed register where the name cannot be written. The clipboard is written
/// where one of its names was given, or none and it is to stand for the
/// unnamed register.
pub proof fn named_texts_go_to_their_registers(
    r: Registers,
    c: char,
    option: bool,
    text: Seq<char>,
    reg_type: RegisterType,
    deleted: bool,
)
    ensures
        routed(r, Some(c), text, reg_type, deleted) == if set_by_the_editor(c) {
            Registers { unnamed: (text, reg_type), ..r }
        } else {
            r.set(Some(c), text, reg_type)
        },
        writes_clipboard(Some(c), option) <==> c == '+' || c == '*',
        writes_clipboard(None, option) == option,
{
}

/// What a paste reads: the register that was named, the unnamed one where none
/// was and the clipboard does not stand for it; and it changes no register.
pub proof fn pastes_read_what_was_named<B: ClipboardBackend>(
    before: RegisterManager<B>,
    after: RegisterManager<B>,
    pending: Option<char>,
    option: bool,
    res: Content,
)
    requires
        fetched(before, after, pending, option, res),
    ensures
        after.model() == before.model(),
        pending is None && !option ==> res == before.model().unnamed && after.clip()
            == before.clip(),
        pending matches Some(c) ==> c != '+' && c != '*' ==> res == before.model().content(pending)
            && after.clip() == before.clip(),
{
}

} // verus!
