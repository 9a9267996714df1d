//! Cursor motions.
use crate::buffer::{Buf, Buffer, Cursor};
use crate::lines::line_content;
use crate::unicode::{
    alphanumeric, graphemes_of, is_alphanumeric, is_whitespace, whitespace, GraphemeCol,
};
use vstd::prelude::*;

pub mod char_find;
pub mod landings;
pub mod line;
pub mod word;

verus! {

/// The motions of the cursor.
pub struct Motions;

/// What a character is to word motions.
#[derive(Debug, Clone, Copy, PartialEq, Eq, Structural)]
pub enum CharClass {
    Cjk,
    Word,
    Punctuation,
    Whitespace,
}

/// Characters of scripts that put no blanks between words.
pub open spec fn cjk(c: char) -> bool {
    (0x3040 <= c as u32 <= 0x30FF) || (0x3400 <= c as u32 <= 0x4DBF) || (0x4E00 <= c as u32
        <= 0x9FFF) || (0xAC00 <= c as u32 <= 0xD7AF) || (0xF900 <= c as u32 <= 0xFAFF)
}

pub open spec fn class_of(c: char) -> CharClass {
    if whitespace(c) {
        CharClass::Whitespace
    } else if cjk(c) {
        CharClass::Cjk
    } else if alphanumeric(c) || c == '_' {
        CharClass::Word
    } else {
        CharClass::Punctuation
    }
}

pub fn char_class(c: char) -> (res: CharClass)
    ensures
        res == class_of(c),
{
    let n: u32 = c as u32;
    if is_whitespace(c) {
        CharClass::Whitespace
    } else if (0x3040 <= n && n <= 0x30FF) || (0x3400 <= n && n <= 0x4DBF) || (0x4E00 <= n && n
        <= 0x9FFF) || (0xAC00 <= n && n <= 0xD7AF) || (0xF900 <= n && n <= 0xFAFF) {
        CharClass::Cjk
    } else if is_alphanumeric(c) || c == '_' {
        CharClass::Word
    } else {
        CharClass::Punctuation
    }
}

/// The class of a character; to the motions over blank-separated words
/// everything that is no white space is one class.
pub open spec fn kind_of(c: char, big: bool) -> CharClass {
    if big && !whitespace(c) {
        CharClass::Word
    } else {
        class_of(c)
    }
}

/// The classes of the clusters of a line, by their first characters.
pub open spec fn kinds(line: Seq<char>, big: bool) -> Seq<CharClass> {
    graphemes_of(line).map_values(|g: Seq<char>| kind_of(g[0], big))
}

/// The classes of line `n` of a text.
pub open spec fn line_kinds(t: Seq<char>, n: int, big: bool) -> Seq<CharClass> {
    kinds(line_content(t, n as nat), big)
}

/// A position of the cursor and the column that it tries to keep.
pub ghost struct Pos {
    pub line: int,
    pub col: int,
    pub goal: int,
}

pub open spec fn pos_of(c: Cursor) -> Pos {
    Pos { line: c.at_line(), col: c.at_col(), goal: c.goal() }
}

/// A position that the cursor was put at.
pub open spec fn at(line: int, col: int) -> Pos {
    Pos { line, col, goal: col }
}

/// `after` is `before` but for the cursor, which is at `pos`.
pub open spec fn cursor_moved(before: Buf, after: Buf, pos: Pos) -> bool {
    after == (Buf { cursor: after.cursor, ..before }) && pos_of(after.cursor) == pos
}

/// The classes of the clusters of a line, by their first characters.
pub(crate) fn classes_of_line(buffer: &Buffer, line: usize, big: bool) -> (out: Vec<CharClass>)
    ensures
        out@ == line_kinds(buffer.text(), line as int, big),
{
    let index = buffer.line_index(line);
    let n: usize = index.grapheme_count();
    let mut out: Vec<CharClass> = Vec::new();
    let mut k: usize = 0;
    while k < n
        invariant
            k <= n == index.parts().len(),
            out.len() == k,
            forall|j: int| 0 <= j < k ==> out@[j] == kind_of(index.parts()[j][0], big),
        decreases n - k,
    {
        let c = match index.grapheme_first_char(GraphemeCol(k)) {
            Some(c) => c,
            None => ' ',
        };
        let class = if big && !is_whitespace(c) {
            CharClass::Word
        } else {
            char_class(c)
        };
        out.push(class);
        k += 1;
    }
    proof {
        assert(out@ =~= line_kinds(buffer.text(), line as int, big));
    }
    out
}

} // verus!
