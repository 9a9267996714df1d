//! The rope that stores a buffer's text, as a sequence of characters.
//!
//! The rope is built so that only the line feed ends a line.
use crate::lines::{breaks_before, line_start, raw_line_count};
use vstd::prelude::*;

verus! {

/// The rope, as an opaque value.
#[verifier::external_type_specification]
#[verifier::external_body]
pub struct ExRope(ropey::Rope);

/// The characters that a rope holds.
pub uninterp spec fn rope_text(rope: ropey::Rope) -> Seq<char>;

/// `Rope::from_str` holds the characters of the string.
#[verifier::external_body]
pub(crate) fn rope_from_str(text: &str) -> (rope: ropey::Rope)
    ensures
        rope_text(rope) == text@,
{
    ropey::Rope::from_str(text)
}

/// `Rope::len_chars` counts the characters.
#[verifier::external_body]
pub(crate) fn rope_len(rope: &ropey::Rope) -> (n: usize)
    ensures
        n == rope_text(*rope).len(),
{
    rope.len_chars()
}

/// `Rope::char` is the character at a position; it panics past the end.
#[verifier::external_body]
pub(crate) fn rope_char(rope: &ropey::Rope, i: usize) -> (c: char)
    requires
        i < rope_text(*rope).len(),
    ensures
        c == rope_text(*rope)[i as int],
{
    rope.char(i)
}

/// `Rope::insert` puts the string before the character at a position; it
/// panics where the position is past the end.
#[verifier::external_body]
pub(crate) fn rope_insert(rope: &mut ropey::Rope, i: usize, text: &str)
    requires
        i <= rope_text(*old(rope)).len(),
    ensures
        rope_text(*final(rope)) == rope_text(*old(rope)).take(i as int) + text@ + rope_text(
            *old(rope),
        ).skip(i as int),
{
    rope.insert(i, text)
}

/// `Rope::remove` takes out the characters of a range; it panics where the
/// range does not lie in the text.
#[verifier::external_body]
pub(crate) fn rope_remove(rope: &mut ropey::Rope, from: usize, to: usize)
    requires
        from <= to <= rope_text(*old(rope)).len(),
    ensures
        rope_text(*final(rope)) == rope_text(*old(rope)).take(from as int) + rope_text(
            *old(rope),
        ).skip(to as int),
{
    rope.remove(from..to)
}

/// `Rope::slice`, as a string: the characters of a range. It panics where the
/// range does not lie in the text.
#[verifier::external_body]
pub(crate) fn rope_slice(rope: &ropey::Rope, from: usize, to: usize) -> (s: String)
    requires
        from <= to <= rope_text(*rope).len(),
    ensures
        s@ == rope_text(*rope).subrange(from as int, to as int),
{
    rope.slice(from..to).to_string()
}

/// `Rope::len_lines` counts one line more than there are line feeds.
#[verifier::external_body]
pub(crate) fn rope_line_count(rope: &ropey::Rope) -> (n: usize)
    ensures
        n == raw_line_count(rope_text(*rope)),
{
    rope.len_lines()
}

/// `Rope::line_to_char` is where a line starts; one line past the last one
/// starts at the end, and further lines make it panic.
#[verifier::external_body]
pub(crate) fn rope_line_start(rope: &ropey::Rope, line: usize) -> (i: usize)
    requires
        line <= raw_line_count(rope_text(*rope)),
    ensures
        i == line_start(rope_text(*rope), line as nat),
{
    rope.line_to_char(line)
}

/// `Rope::char_to_line` is the number of line feeds before a position, which
/// may be the end; it panics past the end.
#[verifier::external_body]
pub(crate) fn rope_line_of(rope: &ropey::Rope, i: usize) -> (line: usize)
    requires
        i <= rope_text(*rope).len(),
    ensures
        line == breaks_before(rope_text(*rope), i as int),
{
    rope.char_to_line(i)
}

} // verus!
