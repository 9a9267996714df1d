//! Text objects that keys name.
use crate::editor::clipboard::ClipboardBackend;
use crate::editor::keys::KeyCode;
use crate::editor::Editor;
use vstd::prelude::*;

verus! {

/// A stretch of text that a key names, with or without what is around it.
#[derive(Debug, Clone, Copy, PartialEq, Eq, Structural)]
pub enum TextObjectType {
    Word { inner: bool, big: bool },
    Quote { char: char, inner: bool },
    Paired { open: char, close: char, inner: bool },
    Paragraph { inner: bool },
    Sentence { inner: bool },
    Tag { inner: bool },
    Indent { inner: bool, tab_width: usize },
    Function { inner: bool },
}

/// The text object that a key names.
pub open spec fn object_of(key: KeyCode, inner: bool, tab_width: usize) -> Option<TextObjectType> {
    match key {
        KeyCode::Char(c) => if c == 'w' {
            Some(TextObjectType::Word { inner, big: false })
        } else if c == 'W' {
            Some(TextObjectType::Word { inner, big: true })
        } else if c == '"' || c == '\'' || c == '`' {
            Some(TextObjectType::Quote { char: c, inner })
        } else if c == '(' || c == ')' || c == 'b' {
            Some(TextObjectType::Paired { open: '(', close: ')', inner })
        } else if c == '[' || c == ']' {
            Some(TextObjectType::Paired { open: '[', close: ']', inner })
        } else if c == '{' || c == '}' || c == 'B' {
            Some(TextObjectType::Paired { open: '{', close: '}', inner })
        } else if c == '<' || c == '>' {
            Some(TextObjectType::Paired { open: '<', close: '>', inner })
        } else if c == 'p' {
            Some(TextObjectType::Paragraph { inner })
        } else if c == 's' {
            Some(TextObjectType::Sentence { inner })
        } else if c == 't' {
            Some(TextObjectType::Tag { inner })
        } else if c == 'i' {
            Some(TextObjectType::Indent { inner, tab_width })
        } else if c == 'f' {
            Some(TextObjectType::Function { inner })
        } else {
            None
        },
        _ => None,
    }
}

/// The text object that a key names, for operators and selections alike.
pub fn from_key<B: ClipboardBackend>(editor: &Editor<B>, key: KeyCode, inner: bool) -> (res: Option<
    TextObjectType,
>)
    requires
        editor.model().wf(),
    ensures
        res == object_of(key, inner, editor.model().indent().norm().tab_width),
{
    let c = match key {
        KeyCode::Char(c) => c,
        _ => {
            return None;
        },
    };
    match c {
        'w' => Some(TextObjectType::Word { inner, big: false }),
        'W' => Some(TextObjectType::Word { inner, big: true }),
        '"' | '\'' | '`' => Some(TextObjectType::Quote { char: c, inner }),
        '(' | ')' | 'b' => Some(TextObjectType::Paired { open: '(', close: ')', inner }),
        '[' | ']' => Some(TextObjectType::Paired { open: '[', close: ']', inner }),
        '{' | '}' | 'B' => Some(TextObjectType::Paired { open: '{', close: '}', inner }),
        '<' | '>' => Some(TextObjectType::Paired { open: '<', close: '>', inner }),
        'p' => Some(TextObjectType::Paragraph { inner }),
        's' => Some(TextObjectType::Sentence { inner }),
        't' => Some(TextObjectType::Tag { inner }),
        'i' => Some(
            TextObjectType::Indent { inner, tab_width: editor.indent_options().tab_width },
        ),
        'f' => Some(TextObjectType::Function { inner }),
        _ => None,
    }
}

} // verus!
