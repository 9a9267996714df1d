//! Positions, diagnostics and edits as language servers speak of them.
use crate::fmt::{copy_option, opt_view};
use crate::text::chars_of;
use std::ops::Range;
use vstd::prelude::*;

pub mod notifications;
pub mod simple_diff;

verus! {

/// A position: a line, and a column counted in UTF-16 code units.
#[derive(Debug, Clone, Copy, PartialEq, Eq, Structural)]
pub struct Position {
    pub line: u32,
    pub character: u32,
}

impl Position {
    pub fn new(line: u32, character: u32) -> (p: Position)
        ensures
            p.line == line,
            p.character == character,
    {
        Position { line, character }
    }

    /// A position is not behind another.
    pub open spec fn le(self, other: Position) -> bool {
        self.line < other.line || (self.line == other.line && self.character <= other.character)
    }
}

/// A stretch between two positions, its end not included.
#[derive(Debug, Clone, Copy, PartialEq, Eq, Structural)]
pub struct LspRange {
    pub start: Position,
    pub end: Position,
}

impl LspRange {
    pub fn new(start: Position, end: Position) -> (r: LspRange)
        ensures
            r.start == start,
            r.end == end,
    {
        LspRange { start, end }
    }
}

/// How bad a diagnostic is. The protocol leaves the number open: one that it
/// gives no name is kept as it is.
#[derive(Debug, Clone, Copy, PartialEq, Eq, Structural)]
pub enum DiagnosticSeverity {
    Error,
    Warning,
    Information,
    Hint,
    Other(i32),
}

/// What a server says of a stretch of a document.
#[derive(Debug, PartialEq, Eq)]
pub struct Diagnostic {
    pub range: LspRange,
    pub severity: Option<DiagnosticSeverity>,
    pub message: String,
    pub source: Option<String>,
    pub code: Option<String>,
}

/// A model of a diagnostic.
pub ghost struct Diag {
    pub range: LspRange,
    pub severity: Option<DiagnosticSeverity>,
    pub message: Seq<char>,
    pub source: Option<Seq<char>>,
    pub code: Option<Seq<char>>,
}

/// An edit that a server asks for.
#[derive(Debug, PartialEq, Eq)]
pub struct TextEdit {
    pub range: LspRange,
    pub new_text: String,
}

impl Diagnostic {
    pub open spec fn model(self) -> Diag {
        Diag {
            range: self.range,
            severity: self.severity,
            message: self.message@,
            source: opt_view(self.source),
            code: opt_view(self.code),
        }
    }

    pub fn copy(&self) -> (d: Diagnostic)
        ensures
            d.model() == self.model(),
    {
        Diagnostic {
            range: self.range,
            severity: self.severity,
            message: self.message.clone(),
            source: copy_option(&self.source),
            code: copy_option(&self.code),
        }
    }
}

pub open spec fn diags(list: Seq<Diagnostic>) -> Seq<Diag> {
    list.map_values(|d: Diagnostic| d.model())
}

/// How many UTF-16 code units a character takes.
pub open spec fn utf16_width(c: char) -> nat {
    if (c as u32) < 0x1_0000 {
        1
    } else {
        2
    }
}

/// How many UTF-16 code units the first `k` characters take.
pub open spec fn utf16_before(t: Seq<char>, k: int) -> nat
    decreases k,
{
    if k <= 0 || k > t.len() {
        0
    } else {
        utf16_before(t, k - 1) + utf16_width(t[k - 1])
    }
}

/// How many characters, from the `k`th on, start before a UTF-16 column.
pub open spec fn chars_to_utf16(t: Seq<char>, k: int, column: int) -> int
    decreases t.len() - k,
{
    if 0 <= k < t.len() && utf16_before(t, k) < column {
        chars_to_utf16(t, k + 1, column)
    } else {
        k
    }
}

/// The largest 32-bit number bounds a column.
pub open spec fn u32_of(n: int) -> u32 {
    if n <= u32::MAX {
        n as u32
    } else {
        u32::MAX
    }
}

fn units(c: char) -> (n: u32)
    ensures
        n == utf16_width(c),
{
    let code: u32 = c as u32;
    if code < 0x1_0000 {
        1
    } else {
        2
    }
}

/// The character column of a UTF-16 column: the first character that does not
/// start before it.
pub fn utf16_to_char_col(line: &str, column: u32) -> (k: usize)
    ensures
        k == chars_to_utf16(line@, 0, column as int),
        k <= line@.len(),
{
    let cs = chars_of(line);
    let mut k: usize = 0;
    let mut at: u64 = 0;
    while k < cs.len() && at < column as u64
        invariant
            k <= cs.len(),
            cs@ == line@,
            at == utf16_before(line@, k as int),
            at <= column as u64 + 1,
            chars_to_utf16(line@, k as int, column as int) == chars_to_utf16(
                line@,
                0,
                column as int,
            ),
        decreases cs.len() - k,
    {
        at += units(cs[k]) as u64;
        k += 1;
    }
    k
}

/// The UTF-16 column of a character column.
pub fn char_col_to_utf16(line: &str, col: usize) -> (u: u32)
    ensures
        u == u32_of(
            utf16_before(
                line@,
                if col < line@.len() {
                    col as int
                } else {
                    line@.len() as int
                },
            ) as int,
        ),
{
    let cs = chars_of(line);
    let stop: usize = if col < cs.len() {
        col
    } else {
        cs.len()
    };
    let mut k: usize = 0;
    let mut at: u32 = 0;
    while k < stop
        invariant
            k <= stop <= cs.len(),
            cs@ == line@,
            at == u32_of(utf16_before(line@, k as int) as int),
        decreases stop - k,
    {
        at = at.saturating_add(units(cs[k]));
        k += 1;
    }
    at
}

/// Going to UTF-16 columns and back gives a character column again.
pub proof fn utf16_round_trip(t: Seq<char>, k: int)
    requires
        0 <= k <= t.len(),
    ensures
        chars_to_utf16(t, 0, utf16_before(t, k) as int) == k,
{
    utf16_reaches(t, 0, k);
}

proof fn utf16_reaches(t: Seq<char>, i: int, k: int)
    requires
        0 <= i <= k <= t.len(),
    ensures
        chars_to_utf16(t, i, utf16_before(t, k) as int) == k,
    decreases k - i,
{
    utf16_grows(t, i, k);
    if i < k {
        utf16_reaches(t, i + 1, k);
    }
}

proof fn utf16_grows(t: Seq<char>, i: int, k: int)
    requires
        0 <= i <= k <= t.len(),
    ensures
        utf16_before(t, i) + (k - i) <= utf16_before(t, k),
    decreases k - i,
{
    if i < k {
        utf16_grows(t, i, k - 1);
    }
}

/// A range whose end is not before its start.
pub open spec fn range_valid(r: LspRange) -> bool {
    r.start.le(r.end)
}

pub fn diagnostic_range_is_valid(r: &LspRange) -> (res: bool)
    ensures
        res == range_valid(*r),
{
    r.start.line < r.end.line || (r.start.line == r.end.line && r.start.character
        <= r.end.character)
}

/// A range shows on a line: it starts there, or starts before it and ends
/// there or behind it. An end at a line's start is not on that line.
pub open spec fn covers(r: LspRange, line: int) -> bool {
    r.start.line == line || (r.start.line < line && (line < r.end.line || (line == r.end.line
        && r.end.character > 0)))
}

/// Whether a diagnostic shows on a line.
pub fn diagnostic_covers_line(d: &Diagnostic, line: usize) -> (res: bool)
    ensures
        res == covers(d.range, line as int),
{
    let start: usize = d.range.start.line as usize;
    let end: usize = d.range.end.line as usize;
    start == line || (start < line && (line < end || (line == end && d.range.end.character > 0)))
}

/// The characters of a line that a range covers.
pub open spec fn char_cover(r: LspRange, line: int, text: Seq<char>) -> (int, int) {
    let start = if r.start.line == line {
        chars_to_utf16(text, 0, r.start.character as int)
    } else {
        0
    };
    let end = if r.end.line == line {
        chars_to_utf16(text, 0, r.end.character as int)
    } else {
        text.len() as int
    };
    (
        start,
        if end < start {
            start
        } else {
            end
        },
    )
}

/// The characters of a line that a diagnostic covers, if it shows there.
pub fn diagnostic_char_range(d: &Diagnostic, line: usize, text: &str) -> (res: Option<Range<usize>>)
    ensures
        match res {
            Some(r) => covers(d.range, line as int) && (r.start as int, r.end as int) == char_cover(
                d.range,
                line as int,
                text@,
            ),
            None => !covers(d.range, line as int),
        },
{
    if !diagnostic_covers_line(d, line) {
        return None;
    }
    let start: usize = if d.range.start.line as usize == line {
        utf16_to_char_col(text, d.range.start.character)
    } else {
        0
    };
    let end: usize = if d.range.end.line as usize == line {
        utf16_to_char_col(text, d.range.end.character)
    } else {
        text.unicode_len()
    };
    if end < start {
        Some(start..start)
    } else {
        Some(start..end)
    }
}

} // verus!
