//! How many terminal cells text takes.
use unicode_width::UnicodeWidthStr;
use vstd::prelude::*;

verus! {

/// The terminal width of a text by the Unicode width tables.
pub uninterp spec fn unicode_width_of(text: Seq<char>) -> nat;

/// `UnicodeWidthStr::width`, by the tables that the name stands for.
#[verifier::external_body]
pub(crate) fn unicode_width(text: &str) -> (w: usize)
    ensures
        w == unicode_width_of(text@),
{
    UnicodeWidthStr::width(text)
}

/// The caret notation of a control character.
pub open spec fn caret_of(c: char) -> Option<Seq<char>> {
    if c == '\x7F' {
        Some(seq!['^', '?'])
    } else if (c as u32) < 0x20 {
        Some(seq!['^', ((c as u32) + 0x40) as char])
    } else {
        None
    }
}

/// How many cells a grapheme cluster takes: none, one or two.
pub open spec fn cluster_width(cluster: Seq<char>) -> nat {
    if unicode_width_of(cluster) > 2 {
        2
    } else {
        unicode_width_of(cluster)
    }
}

/// How many cells a grapheme cluster takes: none, one or two.
pub fn grapheme_display_width(cluster: &str) -> (w: usize)
    ensures
        w == cluster_width(cluster@),
        w <= 2,
{
    let w: usize = unicode_width(cluster);
    if w > 2 {
        2
    } else {
        w
    }
}

/// The caret notation of a control character, such as `^A`; none for others.
pub fn control_char_caret(c: char) -> (res: Option<(char, char)>)
    ensures
        match res {
            Some(pair) => caret_of(c) == Some(seq![pair.0, pair.1]),
            None => caret_of(c) is None,
        },
{
    let code: u32 = c as u32;
    if code == 0x7F {
        Some(('^', '?'))
    } else if code < 0x20 {
        let low: u8 = code as u8;
        let shown: u8 = low + 0x40;
        Some(('^', shown as char))
    } else {
        None
    }
}

} // verus!
