//! A text buffer: a rope, a cursor, and the log of its edits.
use crate::fmt::opt_view;
use crate::indentation::{leading_of, leading_str, IndentOptions};
use crate::lines::{
    breaks_before, breaks_split, content_end, line_break_from, line_break_is, line_content,
    line_count, line_start, line_start_is, offset_is, offset_of, raw_line_count,
};
use crate::rope::{
    rope_char, rope_from_str, rope_insert, rope_len, rope_line_count, rope_line_of,
    rope_line_start, rope_remove, rope_slice, rope_text,
};
use crate::text::same_text;
use crate::text_index::LineIndex;
use crate::unicode::{
    char_col_of, char_to_grapheme_col, grapheme_col_of, grapheme_count, grapheme_to_char_col,
    graphemes_of, whitespace, CharCol, GraphemeCol,
};
use vstd::prelude::*;

verus! {

/// A position of the cursor, with the column it tries to keep when it moves
/// between lines.
#[derive(Debug, Clone, Copy, PartialEq, Eq, Structural)]
pub struct Cursor {
    line: usize,
    col: GraphemeCol,
    desired_col: usize,
}

impl Cursor {
    pub closed spec fn at_line(self) -> int {
        self.line as int
    }

    pub closed spec fn at_col(self) -> int {
        self.col.0 as int
    }

    pub closed spec fn goal(self) -> int {
        self.desired_col as int
    }

    /// The cursor at a line and a column that it tries to keep.
    pub open spec fn is_at(self, line: int, col: int) -> bool {
        self.at_line() == line && self.at_col() == col && self.goal() == col
    }

    pub fn new() -> (c: Cursor)
        ensures
            c.is_at(0, 0),
    {
        Cursor { line: 0, col: GraphemeCol(0), desired_col: 0 }
    }

    pub fn line(&self) -> (n: usize)
        ensures
            n == self.at_line(),
    {
        self.line
    }

    pub fn col(&self) -> (c: GraphemeCol)
        ensures
            c.0 == self.at_col(),
    {
        self.col
    }

    pub fn desired_col(&self) -> (n: usize)
        ensures
            n == self.goal(),
    {
        self.desired_col
    }

    pub fn set_position(&mut self, line: usize, col: GraphemeCol)
        ensures
            final(self).is_at(line as int, col.0 as int),
    {
        self.line = line;
        self.col = col;
        self.desired_col = col.0;
    }

    pub fn set_col(&mut self, col: GraphemeCol)
        ensures
            final(self).is_at(old(self).at_line(), col.0 as int),
    {
        self.col = col;
        self.desired_col = col.0;
    }

    pub fn set_line(&mut self, line: usize)
        ensures
            final(self).at_line() == line,
            final(self).at_col() == old(self).at_col(),
            final(self).goal() == old(self).goal(),
    {
        self.line = line;
    }

    pub fn set_col_preserve_desired(&mut self, col: GraphemeCol)
        ensures
            final(self).at_line() == old(self).at_line(),
            final(self).at_col() == col.0,
            final(self).goal() == old(self).goal(),
    {
        self.col = col;
    }
}

/// A change of the text.
#[derive(Debug, PartialEq, Eq)]
pub enum Edit {
    Insert { offset: usize, text: String },
    Delete { offset: usize, text: String },
}

/// A model of a change.
pub ghost enum Change {
    Insert(int, Seq<char>),
    Delete(int, Seq<char>),
}

/// The text with another inserted.
pub open spec fn inserted(t: Seq<char>, at: int, new: Seq<char>) -> Seq<char> {
    t.take(at) + new + t.skip(at)
}

/// The text without a stretch.
pub open spec fn removed(t: Seq<char>, from: int, to: int) -> Seq<char> {
    t.take(from) + t.skip(to)
}

impl Change {
    /// The change can be made to a text.
    pub open spec fn fits(self, t: Seq<char>) -> bool {
        match self {
            Change::Insert(at, new) => 0 <= at <= t.len(),
            Change::Delete(at, gone) => 0 <= at && at + gone.len() <= t.len() && t.subrange(
                at,
                at + gone.len(),
            ) == gone,
        }
    }

    pub open spec fn applied(self, t: Seq<char>) -> Seq<char> {
        match self {
            Change::Insert(at, new) => inserted(t, at, new),
            Change::Delete(at, gone) => removed(t, at, at + gone.len()),
        }
    }

    pub open spec fn inverse(self) -> Change {
        match self {
            Change::Insert(at, new) => Change::Delete(at, new),
            Change::Delete(at, gone) => Change::Insert(at, gone),
        }
    }
}

/// Undoing a change gives the text back.
pub proof fn undo_restores(c: Change, t: Seq<char>)
    requires
        c.fits(t),
    ensures
        c.inverse().fits(c.applied(t)),
        c.inverse().applied(c.applied(t)) == t,
{
    match c {
        Change::Insert(at, new) => {
            let u = inserted(t, at, new);
            assert(u.subrange(at, at + new.len()) =~= new);
            assert(removed(u, at, at + new.len()) =~= t);
        },
        Change::Delete(at, gone) => {
            let u = removed(t, at, at + gone.len());
            assert(inserted(u, at, gone) =~= t) by {
                assert forall|i: int| 0 <= i < t.len() implies inserted(u, at, gone)[i] == t[i] by {
                    if at <= i < at + gone.len() {
                        assert(t.subrange(at, at + gone.len())[i - at] == t[i]);
                    }
                }
            }
        },
    }
}

/// The text after a series of changes.
pub open spec fn replayed(t: Seq<char>, log: Seq<Change>) -> Seq<char>
    decreases log.len(),
{
    if log.len() == 0 {
        t
    } else {
        log.last().applied(replayed(t, log.drop_last()))
    }
}

/// Each change of a series can be made to the text that the earlier ones leave.
pub open spec fn all_fit(t: Seq<char>, log: Seq<Change>) -> bool
    decreases log.len(),
{
    log.len() == 0 || (all_fit(t, log.drop_last()) && log.last().fits(
        replayed(t, log.drop_last()),
    ))
}

/// The text after a series of changes is undone, the last first.
pub open spec fn reverted(t: Seq<char>, log: Seq<Change>) -> Seq<char>
    decreases log.len(),
{
    if log.len() == 0 {
        t
    } else {
        reverted(log.last().inverse().applied(t), log.drop_last())
    }
}

/// Undoing a whole series of changes gives the text back.
pub proof fn undoing_all_restores(t: Seq<char>, log: Seq<Change>)
    requires
        all_fit(t, log),
    ensures
        reverted(replayed(t, log), log) == t,
    decreases log.len(),
{
    if log.len() > 0 {
        undo_restores(log.last(), replayed(t, log.drop_last()));
        undoing_all_restores(t, log.drop_last());
    }
}

impl Edit {
    pub open spec fn model(self) -> Change {
        match self {
            Edit::Insert { offset, text } => Change::Insert(offset as int, text@),
            Edit::Delete { offset, text } => Change::Delete(offset as int, text@),
        }
    }

    pub fn copy(&self) -> (e: Edit)
        ensures
            e.model() == self.model(),
    {
        match self {
            Edit::Insert { offset, text } => Edit::Insert { offset: *offset, text: text.clone() },
            Edit::Delete { offset, text } => Edit::Delete { offset: *offset, text: text.clone() },
        }
    }
}

pub open spec fn changes(log: Seq<Edit>) -> Seq<Change> {
    log.map_values(|e: Edit| e.model())
}

/// How a file ends its lines.
#[derive(Debug, Clone, Copy, PartialEq, Eq, Structural)]
pub enum LineEnding {
    Lf,
    Crlf,
    Cr,
    Mixed,
}

/// How many edits the log can replay.
pub const DEFAULT_CAPACITY: usize = 64;

/// A text buffer.
pub struct Buffer {
    id: usize,
    rope: ropey::Rope,
    cursor: Cursor,
    log: Vec<Edit>,
    file_path: Option<String>,
    display_name: Option<String>,
    read_only: bool,
    modified: bool,
    indent: Option<IndentOptions>,
    line_ending: LineEnding,
    /// When the file was last written, as far as this buffer knows
    mtime: Option<u64>,
    /// How many changes were recorded when the buffer was last saved
    saved_changes: usize,
}

/// A model of a buffer.
pub ghost struct Buf {
    pub id: usize,
    pub text: Seq<char>,
    pub cursor: Cursor,
    pub log: Seq<Change>,
    pub path: Option<Seq<char>>,
    pub name: Option<Seq<char>>,
    pub read_only: bool,
    pub modified: bool,
    pub indent: Option<IndentOptions>,
    pub ending: LineEnding,
    pub mtime: Option<u64>,
    pub saved_changes: usize,
}

/// The line and the cluster column of a position in a text.
pub open spec fn position_of(t: Seq<char>, at: int) -> (int, int) {
    let line = breaks_before(t, at);
    (
        line as int,
        grapheme_col_of(line_content(t, line), (at - line_start(t, line)) as nat) as int,
    )
}

impl Buf {
    pub open spec fn line(self) -> int {
        self.cursor.at_line()
    }

    pub open spec fn col(self) -> int {
        self.cursor.at_col()
    }

    /// The content of the cursor's line.
    pub open spec fn here(self) -> Seq<char> {
        line_content(self.text, self.line() as nat)
    }

    /// The character column of the cursor.
    pub open spec fn char_col(self) -> int {
        char_col_of(self.here(), self.col() as nat) as int
    }

    /// The buffer with a text inserted at a position; a read-only buffer and
    /// an empty text change nothing.
    pub open spec fn with_insert(self, at: int, new: Seq<char>) -> Buf {
        if self.read_only || new.len() == 0 {
            self
        } else {
            Buf {
                text: inserted(self.text, at, new),
                log: self.log.push(Change::Insert(at, new)),
                modified: true,
                ..self
            }
        }
    }

    /// The buffer without a stretch; a read-only buffer and an empty stretch
    /// change nothing.
    pub open spec fn without(self, from: int, to: int) -> Buf {
        if self.read_only || from >= to {
            self
        } else {
            Buf {
                text: removed(self.text, from, to),
                log: self.log.push(Change::Delete(from, self.text.subrange(from, to))),
                modified: true,
                ..self
            }
        }
    }

    /// The text that taking out a stretch gives.
    pub open spec fn cut(self, from: int, to: int) -> Seq<char> {
        if self.read_only || from >= to {
            Seq::empty()
        } else {
            self.text.subrange(from, to)
        }
    }

    /// The buffer with another indentation of a line.
    pub open spec fn reindented(self, line: nat, new: Seq<char>) -> Buf {
        let current = leading_of(line_content(self.text, line));
        if current == new {
            self
        } else {
            let from = offset_of(self.text, line, 0);
            let to = offset_of(self.text, line, current.len());
            self.without(from, to).with_insert(from, new)
        }
    }

    /// The buffer with another text, made by two edits.
    pub open spec fn replaced(self, new: Seq<char>) -> Buf {
        let b = (Buf { read_only: false, ..self }).without(
            0,
            self.text.len() as int,
        ).with_insert(0, new);
        Buf { read_only: self.read_only, modified: self.modified, ..b }
    }

    /// `after` is this buffer but for its cursor, which is at a line and column.
    pub open spec fn moved(self, after: Buf, line: int, col: int) -> bool {
        &&& after.cursor.is_at(line, col)
        &&& after == Buf { cursor: after.cursor, ..self }
    }
}

impl Buffer {
    pub closed spec fn model(self) -> Buf {
        Buf {
            id: self.id,
            text: rope_text(self.rope),
            cursor: self.cursor,
            log: changes(self.log@),
            path: opt_view(self.file_path),
            name: opt_view(self.display_name),
            read_only: self.read_only,
            modified: self.modified,
            indent: self.indent,
            ending: self.line_ending,
            mtime: self.mtime,
            saved_changes: self.saved_changes,
        }
    }

    pub open spec fn text(self) -> Seq<char> {
        self.model().text
    }

    /// A buffer that holds a text.
    pub fn new_from_str(text: &str) -> (b: Buffer)
        ensures
            b.text() == text@,
            b.model().cursor.is_at(0, 0),
            b.model().log == Seq::<Change>::empty(),
            b.model().path is None,
            b.model().name is None,
            !b.model().read_only,
            !b.model().modified,
            b.model().id == 0,
            b.model().indent is None,
            b.model().ending == LineEnding::Lf,
            b.model().mtime is None,
            b.model().saved_changes == 0,
    {
        let log: Vec<Edit> = Vec::new();
        proof {
            assert(changes(log@) =~= Seq::<Change>::empty());
        }
        Buffer {
            id: 0,
            rope: rope_from_str(text),
            cursor: Cursor::new(),
            log,
            file_path: None,
            display_name: None,
            read_only: false,
            modified: false,
            indent: None,
            line_ending: LineEnding::Lf,
            mtime: None,
            saved_changes: 0,
        }
    }

    pub fn id(&self) -> (id: usize)
        ensures
            id == self.model().id,
    {
        self.id
    }

    pub fn set_id(&mut self, id: usize)
        ensures
            final(self).model() == (Buf { id, ..old(self).model() }),
    {
        self.id = id;
    }

    pub fn cursor(&self) -> (c: &Cursor)
        ensures
            *c == self.model().cursor,
    {
        &self.cursor
    }

    pub fn cursor_mut(&mut self) -> (c: &mut Cursor)
        ensures
            *c == old(self).model().cursor,
            final(self).model() == (Buf { cursor: *final(c), ..old(self).model() }),
    {
        &mut self.cursor
    }

    pub fn set_position(&mut self, line: usize, col: GraphemeCol)
        ensures
            old(self).model().moved(final(self).model(), line as int, col.0 as int),
    {
        self.cursor.set_position(line, col);
    }

    pub fn set_cursor(&mut self, cursor: Cursor)
        ensures
            final(self).model() == (Buf { cursor, ..old(self).model() }),
    {
        self.cursor = cursor;
    }

    pub fn file_path(&self) -> (res: Option<&str>)
        ensures
            match res {
                Some(p) => self.model().path == Some(p@),
                None => self.model().path is None,
            },
    {
        match &self.file_path {
            Some(p) => Some(p.as_str()),
            None => None,
        }
    }

    pub fn set_file_path(&mut self, path: String)
        ensures
            final(self).model() == (Buf { path: Some(path@), ..old(self).model() }),
    {
        self.file_path = Some(path);
    }

    pub fn display_name(&self) -> (res: Option<&str>)
        ensures
            match res {
                Some(p) => self.model().name == Some(p@),
                None => self.model().name is None,
            },
    {
        match &self.display_name {
            Some(p) => Some(p.as_str()),
            None => None,
        }
    }

    pub fn set_display_name(&mut self, name: String)
        ensures
            final(self).model() == (Buf { name: Some(name@), ..old(self).model() }),
    {
        self.display_name = Some(name);
    }

    pub fn is_read_only(&self) -> (res: bool)
        ensures
            res == self.model().read_only,
    {
        self.read_only
    }

    pub fn set_read_only(&mut self, read_only: bool)
        ensures
            final(self).model() == (Buf { read_only, ..old(self).model() }),
    {
        self.read_only = read_only;
    }

    pub fn is_modified(&self) -> (res: bool)
        ensures
            res == self.model().modified,
    {
        self.modified
    }

    pub fn mark_clean(&mut self)
        ensures
            final(self).model() == (Buf { modified: false, ..old(self).model() }),
    {
        self.modified = false;
    }

    /// The indentation policy of this buffer, once it has one.
    pub fn indent_options(&self) -> (o: Option<IndentOptions>)
        ensures
            o == self.model().indent,
    {
        self.indent
    }

    pub fn set_indent_options(&mut self, options: IndentOptions)
        ensures
            final(self).model() == (Buf { indent: Some(options), ..old(self).model() }),
    {
        self.indent = Some(options);
    }

    pub fn line_ending(&self) -> (e: LineEnding)
        ensures
            e == self.model().ending,
    {
        self.line_ending
    }

    pub fn set_line_ending(&mut self, ending: LineEnding)
        ensures
            final(self).model() == (Buf { ending, ..old(self).model() }),
    {
        self.line_ending = ending;
    }

    /// When the file was last written, as far as this buffer knows.
    pub fn file_mtime(&self) -> (t: Option<u64>)
        ensures
            t == self.model().mtime,
    {
        self.mtime
    }

    pub fn set_file_mtime(&mut self, mtime: Option<u64>)
        ensures
            final(self).model() == (Buf { mtime, ..old(self).model() }),
    {
        self.mtime = mtime;
    }

    pub fn saved_changes(&self) -> (n: usize)
        ensures
            n == self.model().saved_changes,
    {
        self.saved_changes
    }

    /// The buffer was saved when so many changes were recorded.
    pub fn set_saved_changes(&mut self, n: usize)
        ensures
            final(self).model() == (Buf { saved_changes: n, ..old(self).model() }),
    {
        self.saved_changes = n;
    }

    /// How many edits were made.
    pub fn version(&self) -> (n: usize)
        ensures
            n == self.model().log.len(),
    {
        self.log.len()
    }

    /// The edits made since a version, where the log still replays them.
    pub fn edits_since(&self, version: u64) -> (res: Option<Vec<Edit>>)
        ensures
            match res {
                Some(edits) => version <= self.model().log.len() && self.model().log.len()
                    - version <= DEFAULT_CAPACITY && changes(edits@) == self.model().log.skip(
                    version as int,
                ),
                None => version > self.model().log.len() || self.model().log.len() - version
                    > DEFAULT_CAPACITY,
            },
    {
        let n: usize = self.log.len();
        if version > n as u64 || n as u64 - version > DEFAULT_CAPACITY as u64 {
            return None;
        }
        Some(self.edits_from(version as usize))
    }

    /// A copy of the edits made since a version.
    pub fn edits_from(&self, version: usize) -> (edits: Vec<Edit>)
        requires
            version <= self.model().log.len(),
        ensures
            changes(edits@) == self.model().log.skip(version as int),
    {
        let mut edits: Vec<Edit> = Vec::new();
        let mut k: usize = version;
        let ghost all = changes(self.log@);
        proof {
            assert(changes(edits@) =~= all.subrange(version as int, version as int));
        }
        while k < self.log.len()
            invariant
                version <= k <= self.log.len(),
                all == changes(self.log@),
                changes(edits@) == all.subrange(version as int, k as int),
            decreases self.log.len() - k,
        {
            let ghost before = edits@;
            let e = self.log[k].copy();
            edits.push(e);
            k += 1;
            proof {
                assert(changes(edits@) =~= changes(before).push(e.model()));
                assert(all.subrange(version as int, k as int) =~= all.subrange(
                    version as int,
                    k - 1,
                ).push(all[k - 1]));
            }
        }
        proof {
            assert(all.subrange(version as int, k as int) =~= all.skip(version as int));
        }
        edits
    }

    pub fn len_chars(&self) -> (n: usize)
        ensures
            n == self.text().len(),
    {
        rope_len(&self.rope)
    }

    pub fn char_at(&self, i: usize) -> (c: char)
        requires
            i < self.text().len(),
        ensures
            c == self.text()[i as int],
    {
        rope_char(&self.rope, i)
    }

    /// The characters of a range.
    pub fn slice(&self, from: usize, to: usize) -> (s: String)
        requires
            from <= to <= self.text().len(),
        ensures
            s@ == self.text().subrange(from as int, to as int),
    {
        rope_slice(&self.rope, from, to)
    }

    /// The whole text.
    pub fn to_text(&self) -> (s: String)
        ensures
            s@ == self.text(),
    {
        let n: usize = self.len_chars();
        let s = rope_slice(&self.rope, 0, n);
        proof {
            assert(s@ =~= self.text());
        }
        s
    }

    /// How many stretches the line feeds cut the text into.
    pub fn raw_line_count(&self) -> (n: usize)
        ensures
            n == raw_line_count(self.text()),
    {
        rope_line_count(&self.rope)
    }

    /// How many lines the text shows.
    pub fn line_count(&self) -> (n: usize)
        ensures
            n == line_count(self.text()),
            n > 0,
    {
        let raw: usize = self.raw_line_count();
        let len: usize = self.len_chars();
        if len > 0 && self.char_at(len - 1) == '\n' {
            proof {
                last_break_counts(self.text());
            }
            raw - 1
        } else {
            raw
        }
    }

    /// Where a line starts; the end of the text behind the last line.
    pub fn line_to_char(&self, line: usize) -> (i: usize)
        ensures
            i == line_start(self.text(), line as nat),
            i <= self.text().len(),
    {
        proof {
            line_start_is(self.text(), line as nat);
        }
        if line < self.raw_line_count() {
            rope_line_start(&self.rope, line)
        } else {
            self.len_chars()
        }
    }

    /// The line of a position.
    pub fn char_to_line(&self, i: usize) -> (line: usize)
        requires
            i <= self.text().len(),
        ensures
            line == breaks_before(self.text(), i as int),
    {
        rope_line_of(&self.rope, i)
    }

    /// Where the content of a line ends.
    pub fn line_end(&self, line: usize) -> (i: usize)
        ensures
            i == content_end(self.text(), line as nat),
            line_start(self.text(), line as nat) <= i <= self.text().len(),
    {
        let start: usize = self.line_to_char(line);
        let n: usize = self.len_chars();
        let mut i: usize = start;
        while i < n && self.char_at(i) != '\n'
            invariant
                start <= i <= n == self.text().len(),
                line_break_from(self.text(), i as int) == line_break_from(
                    self.text(),
                    start as int,
                ),
            decreases n - i,
        {
            i += 1;
        }
        i
    }

    /// The content of a line; empty behind the last line.
    pub fn content(&self, line: usize) -> (s: String)
        ensures
            s@ == line_content(self.text(), line as nat),
    {
        proof {
            line_start_is(self.text(), line as nat);
        }
        let from: usize = self.line_to_char(line);
        let to: usize = self.line_end(line);
        self.slice(from, to)
    }

    /// The content of a line, if the text shows that line.
    pub fn line_text(&self, line: usize) -> (res: Option<String>)
        ensures
            match res {
                Some(s) => line < line_count(self.text()) && s@ == line_content(
                    self.text(),
                    line as nat,
                ),
                None => line >= line_count(self.text()),
            },
    {
        if line < self.line_count() {
            Some(self.content(line))
        } else {
            None
        }
    }

    /// How many characters the content of a line has.
    pub fn line_content_len(&self, line: usize) -> (n: usize)
        ensures
            n == line_content(self.text(), line as nat).len(),
    {
        proof {
            line_start_is(self.text(), line as nat);
        }
        self.line_end(line) - self.line_to_char(line)
    }

    /// The content of a line with its grapheme clusters located.
    pub fn line_index(&self, line: usize) -> (index: LineIndex)
        ensures
            index.text() == line_content(self.text(), line as nat),
    {
        LineIndex::from_text(self.content(line).as_str())
    }

    /// How many grapheme clusters the content of a line has.
    pub fn line_graphemes(&self, line: usize) -> (n: usize)
        ensures
            n == graphemes_of(line_content(self.text(), line as nat)).len(),
            n <= line_content(self.text(), line as nat).len(),
    {
        grapheme_count(self.content(line).as_str())
    }

    /// The position in the text that a line and a character column address.
    pub fn offset(&self, line: usize, col: CharCol) -> (i: usize)
        ensures
            i == offset_of(self.text(), line as nat, col.0 as nat),
            i <= self.text().len(),
    {
        proof {
            offset_is(self.text(), line as nat, col.0 as nat);
            line_start_is(self.text(), line as nat);
        }
        if line >= self.raw_line_count() {
            return self.len_chars();
        }
        let start: usize = self.line_to_char(line);
        let end: usize = self.line_end(line);
        if col.0 < end - start {
            start + col.0
        } else {
            end
        }
    }

    /// Inserts a text at a position; whether the buffer changed.
    pub fn insert_at(&mut self, at: usize, text: &str) -> (changed: bool)
        requires
            at <= old(self).text().len(),
        ensures
            final(self).model() == old(self).model().with_insert(at as int, text@),
            changed == (!old(self).model().read_only && text@.len() > 0),
    {
        if self.read_only || text.unicode_len() == 0 {
            return false;
        }
        let ghost before = changes(self.log@);
        rope_insert(&mut self.rope, at, text);
        let e = Edit::Insert { offset: at, text: text.to_owned() };
        self.log.push(e);
        self.modified = true;
        proof {
            assert(changes(self.log@) =~= before.push(Change::Insert(at as int, text@)));
        }
        true
    }

    /// Takes a stretch out of the text; what was taken out.
    pub fn remove_between(&mut self, from: usize, to: usize) -> (gone: String)
        requires
            from <= old(self).text().len(),
            to <= old(self).text().len(),
        ensures
            final(self).model() == old(self).model().without(from as int, to as int),
            gone@ == old(self).model().cut(from as int, to as int),
    {
        if self.read_only || from >= to {
            return String::new();
        }
        let ghost before = changes(self.log@);
        let gone = rope_slice(&self.rope, from, to);
        rope_remove(&mut self.rope, from, to);
        self.log.push(Edit::Delete { offset: from, text: gone.clone() });
        self.modified = true;
        proof {
            assert(changes(self.log@) =~= before.push(Change::Delete(from as int, gone@)));
        }
        gone
    }

    /// Inserts a text at a line and column; whether the buffer changed.
    pub fn insert_text_at(&mut self, line: usize, col: CharCol, text: &str) -> (changed: bool)
        ensures
            final(self).model() == old(self).model().with_insert(
                offset_of(old(self).text(), line as nat, col.0 as nat),
                text@,
            ),
            changed == (!old(self).model().read_only && text@.len() > 0),
    {
        let at: usize = self.offset(line, col);
        self.insert_at(at, text)
    }

    /// Takes out what lies between two positions; what was taken out.
    pub fn delete_range(
        &mut self,
        start_line: usize,
        start_col: CharCol,
        end_line: usize,
        end_col: CharCol,
    ) -> (gone: String)
        ensures
            final(self).model() == old(self).model().without(
                offset_of(old(self).text(), start_line as nat, start_col.0 as nat),
                offset_of(old(self).text(), end_line as nat, end_col.0 as nat),
            ),
            gone@ == old(self).model().cut(
                offset_of(old(self).text(), start_line as nat, start_col.0 as nat),
                offset_of(old(self).text(), end_line as nat, end_col.0 as nat),
            ),
    {
        let from: usize = self.offset(start_line, start_col);
        let to: usize = self.offset(end_line, end_col);
        self.remove_between(from, to)
    }

    /// Moves the cursor to a position in the text.
    pub fn move_cursor_to(&mut self, at: usize)
        requires
            at <= old(self).text().len(),
        ensures
            ({
                let (line, col) = position_of(old(self).text(), at as int);
                old(self).model().moved(final(self).model(), line, col)
            }),
    {
        let line: usize = self.char_to_line(at);
        let start: usize = self.line_to_char(line);
        proof {
            line_holds_position(self.text(), at as int);
        }
        let content = self.content(line);
        let col = char_to_grapheme_col(content.as_str(), CharCol(at - start));
        self.cursor.set_position(line, col);
    }

    /// Inserts a text and puts the cursor behind it; whether the buffer changed.
    pub fn insert_text_at_positioning_cursor(
        &mut self,
        line: usize,
        col: CharCol,
        text: &str,
    ) -> (changed: bool)
        ensures
            changed == (!old(self).model().read_only && text@.len() > 0),
            typed(
                old(self).model(),
                final(self).model(),
                offset_of(old(self).text(), line as nat, col.0 as nat),
                text@,
            ),
    {
        let at: usize = self.offset(line, col);
        let n: usize = text.unicode_len();
        let changed = self.insert_at(at, text);
        if changed {
            let len: usize = self.len_chars();
            proof {
                assert(len == old(self).text().len() + n);
            }
            self.move_cursor_to(at + n);
        }
        changed
    }

    /// Takes out what lies between two positions and puts the cursor there;
    /// whether the buffer changed.
    pub fn delete_range_positioning_cursor(
        &mut self,
        start_line: usize,
        start_col: CharCol,
        end_line: usize,
        end_col: CharCol,
    ) -> (changed: bool)
        ensures
            ({
                let from = offset_of(old(self).text(), start_line as nat, start_col.0 as nat);
                let to = offset_of(old(self).text(), end_line as nat, end_col.0 as nat);
                &&& changed == (!old(self).model().read_only && from < to)
                &&& erased(old(self).model(), final(self).model(), from, to)
            }),
    {
        let from: usize = self.offset(start_line, start_col);
        let to: usize = self.offset(end_line, end_col);
        let changed = !self.read_only && from < to;
        let _ = self.remove_between(from, to);
        if changed {
            self.move_cursor_to(from);
        }
        changed
    }

    /// The character column of the cursor.
    pub fn cursor_char_col(&self) -> (c: CharCol)
        ensures
            c.0 == self.model().char_col(),
            c.0 <= self.model().here().len(),
    {
        let content = self.content(self.cursor.line());
        grapheme_to_char_col(content.as_str(), self.cursor.col())
    }

    /// Moves the cursor to a character column of a line.
    pub fn set_cursor_char_col(&mut self, line: usize, col: CharCol)
        ensures
            old(self).model().moved(
                final(self).model(),
                line as int,
                grapheme_col_of(
                    line_content(old(self).text(), line as nat),
                    col.0 as nat,
                ) as int,
            ),
    {
        let content = self.content(line);
        let g = char_to_grapheme_col(content.as_str(), col);
        self.cursor.set_position(line, g);
    }

    /// Moves the cursor onto the last cluster of its line, where it is behind it.
    pub fn clamp_cursor_col(&mut self)
        ensures
            ({
                let last = graphemes_of(old(self).model().here()).len() as int;
                if old(self).model().col() < last {
                    final(self).model() == old(self).model()
                } else {
                    old(self).model().moved(
                        final(self).model(),
                        old(self).model().line(),
                        if last > 0 {
                            last - 1
                        } else {
                            0
                        },
                    )
                }
            }),
    {
        let line: usize = self.cursor.line();
        let n: usize = self.line_graphemes(line);
        if self.cursor.col().0 >= n {
            let last: usize = n.saturating_sub(1);
            self.cursor.set_col(GraphemeCol(last));
        }
    }

    /// Replaces the whole text, of a read-only buffer too; whether the buffer
    /// counts as modified stays as it is.
    pub fn replace_content(&mut self, text: &str)
        ensures
            final(self).model() == old(self).model().replaced(text@),
    {
        let read_only = self.read_only;
        let modified = self.modified;
        self.read_only = false;
        let n: usize = self.len_chars();
        let _ = self.remove_between(0, n);
        let _ = self.insert_at(0, text);
        self.read_only = read_only;
        self.modified = modified;
    }

    /// Puts the cursor inside the text: on its last line and on the last
    /// cluster of its line, where it is behind them.
    pub fn validate_cursor_position(&mut self)
        ensures
            validated(old(self).model(), final(self).model()),
    {
        let last: usize = self.line_count() - 1;
        let line: usize = self.cursor.line();
        let col: usize = self.cursor.col().0;
        let target: usize = if line < last {
            line
        } else {
            last
        };
        let n: usize = self.line_graphemes(target);
        let c: usize = if col < n {
            col
        } else {
            n.saturating_sub(1)
        };
        self.cursor.set_position(target, GraphemeCol(c));
    }

    /// Gives a line another indentation.
    pub fn set_indent(&mut self, line: usize, new: &str)
        ensures
            final(self).model() == old(self).model().reindented(line as nat, new@),
    {
        let content = self.content(line);
        let current = leading_str(content.as_str());
        if same_text(current.as_str(), new) {
            return;
        }
        let n: usize = current.as_str().unicode_len();
        let from: usize = self.offset(line, CharCol(0));
        let to: usize = self.offset(line, CharCol(n));
        let ghost before = self.model();
        let _ = self.remove_between(from, to);
        let _ = self.insert_at(from, new);
    }

    /// The first character of a line that is no white space.
    pub fn first_non_blank_col(&self, line: usize) -> (c: CharCol)
        ensures
            c.0 == first_non_blank(line_content(self.text(), line as nat), 0),
            c.0 <= line_content(self.text(), line as nat).len(),
    {
        let content = self.content(line);
        let cs = crate::text::chars_of(content.as_str());
        let mut i: usize = 0;
        while i < cs.len() && crate::unicode::is_whitespace(cs[i])
            invariant
                i <= cs.len(),
                cs@ == content@,
                first_non_blank(content@, i as int) == first_non_blank(content@, 0),
            decreases cs.len() - i,
        {
            i += 1;
        }
        CharCol(i)
    }
}

/// The first character at or behind `i` that is no white space.
pub open spec fn first_non_blank(t: Seq<char>, i: int) -> int
    decreases t.len() - i,
{
    if 0 <= i < t.len() && whitespace(t[i]) {
        first_non_blank(t, i + 1)
    } else {
        i
    }
}

/// The cursor was put inside the text.
pub open spec fn validated(before: Buf, after: Buf) -> bool {
    let last = line_count(before.text) - 1;
    let line = if before.line() < last {
        before.line()
    } else {
        last
    };
    let n = graphemes_of(line_content(before.text, line as nat)).len() as int;
    before.moved(
        after,
        line,
        if before.col() < n {
            before.col()
        } else if n > 0 {
            n - 1
        } else {
            0
        },
    )
}

/// A text was inserted at a position and the cursor put behind it; a
/// read-only buffer and an empty text change nothing.
pub open spec fn typed(before: Buf, after: Buf, at: int, new: Seq<char>) -> bool {
    if before.read_only || new.len() == 0 {
        after == before
    } else {
        let b = before.with_insert(at, new);
        let (line, col) = position_of(b.text, at + new.len());
        b.moved(after, line, col)
    }
}

/// A stretch was taken out and the cursor put there; a read-only buffer and
/// an empty stretch change nothing.
pub open spec fn erased(before: Buf, after: Buf, from: int, to: int) -> bool {
    if before.read_only || from >= to {
        after == before
    } else {
        let b = before.without(from, to);
        let (line, col) = position_of(b.text, from);
        b.moved(after, line, col)
    }
}

proof fn last_break_counts(t: Seq<char>)
    requires
        t.len() > 0,
        t.last() == '\n',
    ensures
        raw_line_count(t) >= 2,
{
    breaks_split(t, t.len() as int);
    assert(breaks_before(t, t.len() as int) >= 1);
}

/// A position lies in the line that the line feeds before it number.
pub proof fn line_holds_position(t: Seq<char>, at: int)
    requires
        0 <= at <= t.len(),
    ensures
        breaks_before(t, at) < raw_line_count(t),
        line_start(t, breaks_before(t, at)) <= at <= content_end(t, breaks_before(t, at)),
    decreases at,
{
    breaks_split(t, at);
    if at > 0 {
        line_holds_position(t, at - 1);
        let line = breaks_before(t, at - 1);
        line_start_is(t, line);
        line_break_is(t, line_start(t, line));
        if t[at - 1] == '\n' {
            assert(content_end(t, line) == at - 1);
            assert(line_start(t, line + 1) == at);
            line_start_is(t, line + 1);
        } else {
            assert(content_end(t, line) >= at) by {
                if content_end(t, line) == at - 1 {
                    assert(t[content_end(t, line)] == '\n');
                }
            }
        }
    } else {
        line_start_is(t, 0);
    }
}

} // verus!
