//! What the editor knows of its language servers.
use crate::buffer::Buffer;
use crate::fmt::{copy_option, opt_view};
use crate::lines::{line_content, line_start, line_start_is, raw_line_count};
use crate::lsp::{
    chars_to_utf16, covers, diagnostic_covers_line, diagnostic_range_is_valid, diags,
    range_valid, utf16_to_char_col, Diag, Diagnostic, DiagnosticSeverity, LspRange, Position,
};
use crate::text::same_text;
use crate::text_map::TextMap;
use std::hash::Hasher;
use vstd::prelude::*;

verus! {

/// What a hover window shows.
#[derive(Debug, Clone, Copy, PartialEq, Eq, Structural)]
pub enum HoverContentType {
    LspHover,
    Diagnostic,
    BlameInfo,
    AiReasoning,
}

/// Synchronisation state of one document.
#[derive(Debug)]
pub struct DocumentSyncState {
    pub buffer_modified: bool,
    pub buffer_saved: bool,
    pub last_flushed_content: Option<String>,
    pub last_queued_content: Option<String>,
    pub target_lsp_version: Option<i32>,
    /// Whether the server was told that the document is open
    pub did_open_sent: bool,
    /// The content changed without the server hearing about it: the next
    /// synchronisation must send the whole document.
    pub force_full_resend: bool,
}

/// A model of the synchronisation state of one document.
pub ghost struct Sync {
    pub modified: bool,
    pub saved: bool,
    pub flushed: Option<Seq<char>>,
    pub queued: Option<Seq<char>>,
    pub target: Option<i32>,
    pub opened: bool,
    pub full: bool,
}

impl Sync {
    pub open spec fn new() -> Sync {
        Sync {
            modified: false,
            saved: false,
            flushed: None,
            queued: None,
            target: None,
            opened: false,
            full: false,
        }
    }

    /// The state after the server received a content at a version. What was
    /// queued is done where it is not newer; the document stays modified as
    /// long as its content differs or something newer waits.
    pub open spec fn flushed_to(self, content: Seq<char>, version: i32, current: Option<Seq<char>>) -> Sync {
        let done = self.target is Some && self.target->0 <= version;
        let target = if done {
            None
        } else {
            self.target
        };
        Sync {
            flushed: Some(content),
            target,
            queued: if done && self.queued == Some(content) {
                None
            } else {
                self.queued
            },
            modified: match current {
                Some(c) => c != content || target is Some,
                None => false,
            },
            ..self
        }
    }
}

impl DocumentSyncState {
    pub open spec fn model(self) -> Sync {
        Sync {
            modified: self.buffer_modified,
            saved: self.buffer_saved,
            flushed: opt_view(self.last_flushed_content),
            queued: opt_view(self.last_queued_content),
            target: self.target_lsp_version,
            opened: self.did_open_sent,
            full: self.force_full_resend,
        }
    }

    pub fn new() -> (s: DocumentSyncState)
        ensures
            s.model() == Sync::new(),
    {
        DocumentSyncState {
            buffer_modified: false,
            buffer_saved: false,
            last_flushed_content: None,
            last_queued_content: None,
            target_lsp_version: None,
            did_open_sent: false,
            force_full_resend: false,
        }
    }

    pub fn copy(&self) -> (s: DocumentSyncState)
        ensures
            s.model() == self.model(),
    {
        DocumentSyncState {
            buffer_modified: self.buffer_modified,
            buffer_saved: self.buffer_saved,
            last_flushed_content: copy_option(&self.last_flushed_content),
            last_queued_content: copy_option(&self.last_queued_content),
            target_lsp_version: self.target_lsp_version,
            did_open_sent: self.did_open_sent,
            force_full_resend: self.force_full_resend,
        }
    }

    pub fn mark_modified(&mut self)
        ensures
            final(self).model() == (Sync { modified: true, ..old(self).model() }),
    {
        self.buffer_modified = true;
    }

    pub fn mark_saved(&mut self)
        ensures
            final(self).model() == (Sync { saved: true, ..old(self).model() }),
    {
        self.buffer_saved = true;
    }

    pub fn is_modified(&self) -> (res: bool)
        ensures
            res == self.model().modified,
    {
        self.buffer_modified
    }

    pub fn should_send_save(&self) -> (res: bool)
        ensures
            res == self.model().saved,
    {
        self.buffer_saved
    }

    pub fn flushed_content(&self) -> (res: Option<&str>)
        ensures
            match res {
                Some(s) => self.model().flushed == Some(s@),
                None => self.model().flushed is None,
            },
    {
        match &self.last_flushed_content {
            Some(s) => Some(s.as_str()),
            None => None,
        }
    }

    pub fn queued_content(&self) -> (res: Option<&str>)
        ensures
            match res {
                Some(s) => self.model().queued == Some(s@),
                None => self.model().queued is None,
            },
    {
        match &self.last_queued_content {
            Some(s) => Some(s.as_str()),
            None => None,
        }
    }

    pub fn mark_change_queued(&mut self, queued_content: String, target_lsp_version: i32)
        ensures
            final(self).model() == (Sync {
                modified: true,
                queued: Some(queued_content@),
                target: Some(target_lsp_version),
                ..old(self).model()
            }),
    {
        self.buffer_modified = true;
        self.last_queued_content = Some(queued_content);
        self.target_lsp_version = Some(target_lsp_version);
    }

    pub fn mark_change_flushed(
        &mut self,
        flushed_content: String,
        flushed_version: i32,
        current_content: Option<&str>,
    )
        ensures
            final(self).model() == old(self).model().flushed_to(
                flushed_content@,
                flushed_version,
                match current_content {
                    Some(c) => Some(c@),
                    None => None,
                },
            ),
    {
        let done = match self.target_lsp_version {
            Some(target) => target <= flushed_version,
            None => false,
        };
        if done {
            self.target_lsp_version = None;
            let same = match &self.last_queued_content {
                Some(queued) => same_text(queued.as_str(), flushed_content.as_str()),
                None => false,
            };
            if same {
                self.last_queued_content = None;
            }
        }
        self.buffer_modified = match current_content {
            Some(current) => !same_text(current, flushed_content.as_str())
                || self.target_lsp_version.is_some(),
            None => false,
        };
        self.last_flushed_content = Some(flushed_content);
    }

    pub fn mark_save_sent(&mut self)
        ensures
            final(self).model() == (Sync { saved: false, ..old(self).model() }),
    {
        self.buffer_saved = false;
    }
}

/// A document whose newest content the server received is not modified; one
/// with a newer content, or with a newer change that waits, is.
pub proof fn flush_settles(s: Sync, content: Seq<char>, version: i32, current: Seq<char>)
    ensures
        s.target is None || s.target->0 <= version ==> s.flushed_to(
            content,
            version,
            Some(content),
        ).modified == false,
        s.target matches Some(target) && target > version ==> s.flushed_to(
            content,
            version,
            Some(content),
        ).modified,
        current != content ==> s.flushed_to(content, version, Some(current)).modified,
        s.flushed_to(content, version, Some(current)).flushed == Some(content),
{
}

/// What the most recent request for inlay hints was for.
#[derive(Debug, PartialEq, Eq)]
pub struct InlayHintRequestKey {
    pub file_path: String,
    pub start_line: usize,
    pub end_line: usize,
    pub lsp_version: i32,
}

/// A hover result that need not be asked for again.
#[derive(Debug)]
pub struct HoverCache {
    pub file_path: String,
    pub line: usize,
    pub col: usize,
    pub buffer_version: usize,
    pub hover_text: String,
    /// When it was cached, in milliseconds of a clock that does not go back.
    pub cached_at: u64,
}

/// How long a hover result is kept, in milliseconds.
pub const HOVER_MAX_AGE: u64 = 60_000;

impl HoverCache {
    /// Whether the result is for a position of a version of a file, and not
    /// too old at a time.
    pub fn is_valid(
        &self,
        file_path: &str,
        line: usize,
        col: usize,
        buffer_version: usize,
        now: u64,
    ) -> (res: bool)
        ensures
            res == (self.file_path@ == file_path@ && self.line == line && self.col == col
                && self.buffer_version == buffer_version && now - self.cached_at < HOVER_MAX_AGE),
    {
        same_text(self.file_path.as_str(), file_path) && self.line == line && self.col == col
            && self.buffer_version == buffer_version && now.saturating_sub(self.cached_at)
            < HOVER_MAX_AGE
    }

    pub fn new(
        file_path: String,
        line: usize,
        col: usize,
        buffer_version: usize,
        hover_text: String,
        now: u64,
    ) -> (c: Self)
        ensures
            c.file_path@ == file_path@,
            c.line == line,
            c.col == col,
            c.buffer_version == buffer_version,
            c.hover_text@ == hover_text@,
            c.cached_at == now,
    {
        HoverCache { file_path, line, col, buffer_version, hover_text, cached_at: now }
    }
}

/// Where a diagnostic is in the text that it was placed against: the start of
/// its line, its start and its end.
#[derive(Debug, Clone, Copy, PartialEq, Eq, Structural)]
pub struct DiagnosticAnchor {
    pub line_start: usize,
    pub start: usize,
    pub end: usize,
}

/// Anchors of the current file's diagnostics, parallel by index.
#[derive(Debug)]
pub struct DiagnosticAnchors {
    pub anchors: Vec<DiagnosticAnchor>,
    /// Buffer version the anchors were computed against.
    pub source_version: u64,
}

/// A model of the anchors.
pub ghost struct Anchors {
    pub list: Seq<DiagnosticAnchor>,
    pub version: u64,
}

pub open spec fn anchors_model(a: Option<DiagnosticAnchors>) -> Option<Anchors> {
    match a {
        Some(a) => Some(Anchors { list: a.anchors@, version: a.source_version }),
        None => None,
    }
}

/// The largest start of a line, or end of the text, that a position addresses.
pub open spec fn position_offset(t: Seq<char>, p: Position) -> int {
    if p.line >= raw_line_count(t) {
        t.len() as int
    } else {
        line_start(t, p.line as nat) + chars_to_utf16(
            line_content(t, p.line as nat),
            0,
            p.character as int,
        )
    }
}

/// The anchor of a range in a text.
pub open spec fn anchor_of(t: Seq<char>, r: LspRange) -> DiagnosticAnchor {
    let start = position_offset(t, r.start);
    let end = position_offset(t, r.end);
    DiagnosticAnchor {
        line_start: line_start(t, r.start.line as nat) as usize,
        start: start as usize,
        end: (if end < start {
            start
        } else {
            end
        }) as usize,
    }
}

fn position_to_char_offset(buffer: &Buffer, p: Position) -> (at: usize)
    ensures
        at == position_offset(buffer.text(), p),
        at <= buffer.text().len(),
{
    let line: usize = p.line as usize;
    if line >= buffer.raw_line_count() {
        return buffer.len_chars();
    }
    proof {
        line_start_is(buffer.text(), line as nat);
    }
    let content = buffer.content(line);
    let start: usize = buffer.line_to_char(line);
    let total: usize = buffer.len_chars();
    start + utf16_to_char_col(content.as_str(), p.character)
}

fn anchor_for(buffer: &Buffer, r: LspRange) -> (a: DiagnosticAnchor)
    ensures
        a == anchor_of(buffer.text(), r),
{
    let line_start: usize = buffer.line_to_char(r.start.line as usize);
    let start: usize = position_to_char_offset(buffer, r.start);
    let end: usize = position_to_char_offset(buffer, r.end);
    DiagnosticAnchor {
        line_start,
        start,
        end: if end < start {
            start
        } else {
            end
        },
    }
}

/// Those of the first `k` diagnostics whose ranges are valid.
pub open spec fn valid_diags(list: Seq<Diag>, k: int) -> Seq<Diag>
    decreases k,
{
    if k <= 0 || k > list.len() {
        Seq::empty()
    } else {
        let before = valid_diags(list, k - 1);
        if range_valid(list[k - 1].range) {
            before.push(list[k - 1])
        } else {
            before
        }
    }
}

/// Those of the first `k` diagnostics that start on a line.
pub open spec fn starting_on(list: Seq<Diag>, k: int, line: int) -> Seq<Diag>
    decreases k,
{
    if k <= 0 || k > list.len() {
        Seq::empty()
    } else {
        let before = starting_on(list, k - 1, line);
        if list[k - 1].range.start.line == line {
            before.push(list[k - 1])
        } else {
            before
        }
    }
}

/// Those of the first `k` diagnostics that show on a line but start before it.
pub open spec fn reaching(list: Seq<Diag>, k: int, line: int) -> Seq<Diag>
    decreases k,
{
    if k <= 0 || k > list.len() {
        Seq::empty()
    } else {
        let before = reaching(list, k - 1, line);
        let d = list[k - 1];
        if d.range.end.line > d.range.start.line && d.range.start.line != line && covers(
            d.range,
            line,
        ) {
            before.push(d)
        } else {
            before
        }
    }
}

/// The diagnostics that show on a line: those that start there, then those
/// that reach it from above.
pub open spec fn covering_of(list: Seq<Diag>, line: int) -> Seq<Diag> {
    starting_on(list, list.len() as int, line) + reaching(list, list.len() as int, line)
}

fn select(list: &Vec<Diagnostic>, line: usize, starting: bool, out: &mut Vec<Diagnostic>)
    ensures
        diags(final(out)@) == diags(old(out)@) + if starting {
            starting_on(diags(list@), list.len() as int, line as int)
        } else {
            reaching(diags(list@), list.len() as int, line as int)
        },
{
    let ghost all = diags(list@);
    let ghost start = diags(out@);
    let mut k: usize = 0;
    proof {
        assert(start + Seq::<Diag>::empty() =~= start);
    }
    while k < list.len()
        invariant
            k <= list.len(),
            all == diags(list@),
            diags(out@) == start + if starting {
                starting_on(all, k as int, line as int)
            } else {
                reaching(all, k as int, line as int)
            },
        decreases list.len() - k,
    {
        let d = &list[k];
        proof {
            assert(all[k as int] == d.model());
        }
        let here = d.range.start.line as usize == line;
        let wanted = if starting {
            here
        } else {
            d.range.end.line > d.range.start.line && !here && diagnostic_covers_line(d, line)
        };
        if wanted {
            let ghost before = diags(out@);
            let c = d.copy();
            out.push(c);
            proof {
                assert(diags(out@) =~= before.push(d.model()));
            }
        }
        k += 1;
        proof {
            if starting {
                assert(diags(out@) =~= start + starting_on(all, k as int, line as int));
            } else {
                assert(diags(out@) =~= start + reaching(all, k as int, line as int));
            }
        }
    }
}

/// The diagnostics that show on a line.
pub fn covering_list(list: &Vec<Diagnostic>, line: usize) -> (out: Vec<Diagnostic>)
    ensures
        diags(out@) == covering_of(diags(list@), line as int),
{
    let mut out: Vec<Diagnostic> = Vec::new();
    proof {
        assert(diags(out@) =~= Seq::<Diag>::empty());
    }
    select(list, line, true, &mut out);
    select(list, line, false, &mut out);
    proof {
        assert(diags(out@) =~= covering_of(diags(list@), line as int));
    }
    out
}

/// A diagnostic shows on a line exactly where it is among those that show
/// there.
pub proof fn covering_is_exact(list: Seq<Diag>, k: int, line: int, d: Diag)
    requires
        0 <= k <= list.len(),
    ensures
        (starting_on(list, k, line) + reaching(list, k, line)).contains(d) <==> exists|i: int|
            0 <= i < k && #[trigger] list[i] == d && covers(d.range, line),
    decreases k,
{
    let s = starting_on(list, k, line);
    let r = reaching(list, k, line);
    concat_contains(s, r, d);
    if k > 0 {
        covering_is_exact(list, k - 1, line, d);
        let s0 = starting_on(list, k - 1, line);
        let r0 = reaching(list, k - 1, line);
        concat_contains(s0, r0, d);
        let x = list[k - 1];
        push_contains(s0, x, d);
        push_contains(r0, x, d);
        if covers(x.range, line) && x.range.start.line != line {
            assert(x.range.end.line > x.range.start.line);
        }
        if x == d && covers(d.range, line) {
            assert(list[k - 1] == d);
        }
    }
}

proof fn push_contains(s: Seq<Diag>, x: Diag, d: Diag)
    ensures
        s.push(x).contains(d) <==> s.contains(d) || x == d,
{
    if s.contains(d) {
        let i = choose|i: int| 0 <= i < s.len() && s[i] == d;
        assert(s.push(x)[i] == d);
    }
    if x == d {
        assert(s.push(x)[s.len() as int] == d);
    }
    if s.push(x).contains(d) && x != d {
        let i = choose|i: int| 0 <= i < s.push(x).len() && s.push(x)[i] == d;
        assert(s[i] == d);
    }
}

proof fn concat_contains(a: Seq<Diag>, b: Seq<Diag>, d: Diag)
    ensures
        (a + b).contains(d) <==> a.contains(d) || b.contains(d),
{
    if a.contains(d) {
        let i = choose|i: int| 0 <= i < a.len() && a[i] == d;
        assert((a + b)[i] == d);
    }
    if b.contains(d) {
        let i = choose|i: int| 0 <= i < b.len() && b[i] == d;
        assert((a + b)[a.len() + i] == d);
    }
    if (a + b).contains(d) {
        let i = choose|i: int| 0 <= i < (a + b).len() && (a + b)[i] == d;
        if i < a.len() {
            assert(a[i] == d);
        } else {
            assert(b[i - a.len()] == d);
        }
    }
}

/// A fingerprint of bytes.
pub uninterp spec fn fingerprint(bytes: Seq<u8>) -> u64;

/// The hash of bytes by `DefaultHasher::new`, whose keys are fixed, with
/// `Hasher::write` and `Hasher::finish`: equal bytes give equal hashes, by the
/// algorithm that the name stands for.
#[verifier::external_body]
fn hash_bytes(bytes: &[u8]) -> (h: u64)
    ensures
        h == fingerprint(bytes@),
{
    let mut hasher = std::collections::hash_map::DefaultHasher::new();
    hasher.write(bytes);
    hasher.finish()
}

/// A distinct number for each severity that has a name. A missing one is its
/// own, and those without a name share one.
pub open spec fn severity_rank_of(s: Option<DiagnosticSeverity>) -> u8 {
    match s {
        Some(DiagnosticSeverity::Error) => 1,
        Some(DiagnosticSeverity::Warning) => 2,
        Some(DiagnosticSeverity::Information) => 3,
        Some(DiagnosticSeverity::Hint) => 4,
        Some(DiagnosticSeverity::Other(_)) => 5,
        None => 0,
    }
}

fn severity_rank(s: Option<DiagnosticSeverity>) -> (r: u8)
    ensures
        r == severity_rank_of(s),
{
    match s {
        Some(DiagnosticSeverity::Error) => 1,
        Some(DiagnosticSeverity::Warning) => 2,
        Some(DiagnosticSeverity::Information) => 3,
        Some(DiagnosticSeverity::Hint) => 4,
        Some(DiagnosticSeverity::Other(_)) => 5,
        None => 0,
    }
}

/// The bytes of a number, the lowest first.
pub open spec fn word_bytes(w: u32) -> Seq<u8> {
    seq![
        (w % 256) as u8,
        (w / 256 % 256) as u8,
        (w / 65_536 % 256) as u8,
        (w / 16_777_216) as u8,
    ]
}

fn push_word(out: &mut Vec<u8>, w: u32)
    ensures
        final(out)@ == old(out)@ + word_bytes(w),
{
    out.push((w % 256) as u8);
    out.push((w / 256 % 256) as u8);
    out.push((w / 65_536 % 256) as u8);
    out.push((w / 16_777_216) as u8);
    proof {
        assert(out@ =~= old(out)@ + word_bytes(w));
    }
}

/// The bytes that tell the first `k` diagnostics apart: ranges and severities.
pub open spec fn diag_bytes(list: Seq<Diag>, k: int) -> Seq<u8>
    decreases k,
{
    if k <= 0 || k > list.len() {
        Seq::empty()
    } else {
        let d = list[k - 1];
        diag_bytes(list, k - 1) + word_bytes(d.range.start.line) + word_bytes(
            d.range.start.character,
        ) + word_bytes(d.range.end.line) + word_bytes(d.range.end.character) + seq![
            severity_rank_of(d.severity),
        ]
    }
}

/// Severities that a fingerprint does not tell apart: the same, or two without
/// a name.
pub open spec fn alike(a: Option<DiagnosticSeverity>, b: Option<DiagnosticSeverity>) -> bool {
    a == b || (a matches Some(DiagnosticSeverity::Other(_)) && b matches Some(
        DiagnosticSeverity::Other(_),
    ))
}

/// Sets of diagnostics with other ranges or severities have other bytes.
pub proof fn diag_bytes_tell_apart(a: Seq<Diag>, b: Seq<Diag>)
    requires
        diag_bytes(a, a.len() as int) == diag_bytes(b, b.len() as int),
    ensures
        a.len() == b.len(),
        forall|i: int|
            0 <= i < a.len() ==> (#[trigger] a[i]).range == b[i].range && alike(
                a[i].severity,
                b[i].severity,
            ),
    decreases a.len(),
{
    bytes_len(a, a.len() as int);
    bytes_len(b, b.len() as int);
    assert(a.len() == b.len());
    if a.len() > 0 {
        let n = a.len() as int;
        let m = 17 * (n - 1);
        let ba = diag_bytes(a, n);
        let bb = diag_bytes(b, n);
        bytes_len(a, n - 1);
        bytes_len(b, n - 1);
        assert(diag_bytes(a, n - 1) =~= ba.take(m));
        assert(diag_bytes(b, n - 1) =~= bb.take(m));
        bytes_prefix(a, a.drop_last(), n - 1);
        bytes_prefix(b, b.drop_last(), n - 1);
        diag_bytes_tell_apart(a.drop_last(), b.drop_last());
        let x = a[n - 1];
        let y = b[n - 1];
        last_bytes(a);
        last_bytes(b);
        word_bytes_tell_apart(x.range.start.line, y.range.start.line);
        word_bytes_tell_apart(x.range.start.character, y.range.start.character);
        word_bytes_tell_apart(x.range.end.line, y.range.end.line);
        word_bytes_tell_apart(x.range.end.character, y.range.end.character);
        assert forall|i: int| 0 <= i < a.len() implies (#[trigger] a[i]).range == b[i].range
            && alike(a[i].severity, b[i].severity) by {
            if i < n - 1 {
                assert(a.drop_last()[i] == a[i]);
                assert(b.drop_last()[i] == b[i]);
            }
        }
    }
}

/// Where the bytes of the last diagnostic stand.
proof fn last_bytes(list: Seq<Diag>)
    requires
        list.len() > 0,
    ensures
        ({
            let n = list.len() as int;
            let m = 17 * (n - 1);
            let all = diag_bytes(list, n);
            let d = list[n - 1];
            &&& all.subrange(m, m + 4) == word_bytes(d.range.start.line)
            &&& all.subrange(m + 4, m + 8) == word_bytes(d.range.start.character)
            &&& all.subrange(m + 8, m + 12) == word_bytes(d.range.end.line)
            &&& all.subrange(m + 12, m + 16) == word_bytes(d.range.end.character)
            &&& all[m + 16] == severity_rank_of(d.severity)
        }),
{
    let n = list.len() as int;
    let m = 17 * (n - 1);
    let all = diag_bytes(list, n);
    let d = list[n - 1];
    bytes_len(list, n - 1);
    bytes_len(list, n);
    assert(all.subrange(m, m + 4) =~= word_bytes(d.range.start.line));
    assert(all.subrange(m + 4, m + 8) =~= word_bytes(d.range.start.character));
    assert(all.subrange(m + 8, m + 12) =~= word_bytes(d.range.end.line));
    assert(all.subrange(m + 12, m + 16) =~= word_bytes(d.range.end.character));
}

proof fn word_bytes_tell_apart(v: u32, w: u32)
    ensures
        word_bytes(v) == word_bytes(w) ==> v == w,
{
    if word_bytes(v) == word_bytes(w) {
        assert(word_bytes(v)[0] == word_bytes(w)[0]);
        assert(word_bytes(v)[1] == word_bytes(w)[1]);
        assert(word_bytes(v)[2] == word_bytes(w)[2]);
        assert(word_bytes(v)[3] == word_bytes(w)[3]);
    }
}

proof fn bytes_len(list: Seq<Diag>, k: int)
    requires
        0 <= k <= list.len(),
    ensures
        diag_bytes(list, k).len() == 17 * k,
    decreases k,
{
    if k > 0 {
        bytes_len(list, k - 1);
    }
}

proof fn bytes_prefix(a: Seq<Diag>, b: Seq<Diag>, k: int)
    requires
        0 <= k <= a.len(),
        k <= b.len(),
        forall|i: int| 0 <= i < k ==> a[i] == b[i],
    ensures
        diag_bytes(a, k) == diag_bytes(b, k),
    decreases k,
{
    if k > 0 {
        bytes_prefix(a, b, k - 1);
    }
}

/// Diagnostics with the lines that they show on, in the order of the lines.
#[derive(Debug)]
pub struct ProjectedDiagnostics {
    /// Each starts on the line of its range.
    list: Vec<Diagnostic>,
}

/// The diagnostics with one more, behind those that start on its line or
/// above it.
pub open spec fn insert_diag(list: Seq<Diag>, d: Diag) -> Seq<Diag> {
    list.insert(diag_slot(list, list.len() as int, d.range.start.line as int), d)
}

pub open spec fn diag_slot(list: Seq<Diag>, k: int, line: int) -> int
    decreases k,
{
    if k <= 0 || k > list.len() || list[k - 1].range.start.line <= line {
        k
    } else {
        diag_slot(list, k - 1, line)
    }
}

/// Those of the first `k` diagnostics whose ranges are valid, in the order of
/// the lines that they start on.
pub open spec fn by_line(list: Seq<Diag>, k: int) -> Seq<Diag>
    decreases k,
{
    if k <= 0 || k > list.len() {
        Seq::empty()
    } else {
        let before = by_line(list, k - 1);
        if range_valid(list[k - 1].range) {
            insert_diag(before, list[k - 1])
        } else {
            before
        }
    }
}

impl ProjectedDiagnostics {
    pub closed spec fn view(&self) -> Seq<Diag> {
        diags(self.list@)
    }

    /// Diagnostics without a valid range are left out.
    pub fn new(diagnostics: Vec<Diagnostic>) -> (p: Self)
        ensures
            p.view() == by_line(diags(diagnostics@), diagnostics.len() as int),
    {
        let ghost all = diags(diagnostics@);
        let mut list: Vec<Diagnostic> = Vec::new();
        let mut k: usize = 0;
        proof {
            assert(diags(list@) =~= by_line(all, 0));
        }
        while k < diagnostics.len()
            invariant
                k <= diagnostics.len(),
                all == diags(diagnostics@),
                diags(list@) == by_line(all, k as int),
            decreases diagnostics.len() - k,
        {
            let d = &diagnostics[k];
            proof {
                assert(all[k as int] == d.model());
            }
            if diagnostic_range_is_valid(&d.range) {
                let ghost model = diags(list@);
                let line: u32 = d.range.start.line;
                let mut at: usize = list.len();
                while at > 0 && list[at - 1].range.start.line > line
                    invariant
                        at <= list.len(),
                        model == diags(list@),
                        diag_slot(model, at as int, line as int) == diag_slot(
                            model,
                            model.len() as int,
                            line as int,
                        ),
                    decreases at,
                {
                    proof {
                        assert(model[at - 1] == list@[at - 1].model());
                    }
                    at -= 1;
                }
                proof {
                    if at > 0 {
                        assert(model[at - 1] == list@[at - 1].model());
                    }
                }
                let c = d.copy();
                list.insert(at, c);
                proof {
                    assert(diags(list@) =~= model.insert(at as int, d.model()));
                }
            }
            k += 1;
        }
        ProjectedDiagnostics { list }
    }

    /// The diagnostics that start on a line.
    pub fn for_line(&self, line: usize) -> (out: Vec<Diagnostic>)
        ensures
            diags(out@) == starting_on(self.view(), self.view().len() as int, line as int),
    {
        let mut out: Vec<Diagnostic> = Vec::new();
        proof {
            assert(diags(out@) =~= Seq::<Diag>::empty());
        }
        select(&self.list, line, true, &mut out);
        proof {
            assert(diags(out@) =~= starting_on(self.view(), self.view().len() as int, line as int));
        }
        out
    }

    /// The diagnostics that show on a line, those that start earlier too.
    pub fn covering(&self, line: usize) -> (out: Vec<Diagnostic>)
        ensures
            diags(out@) == covering_of(self.view(), line as int),
    {
        covering_list(&self.list, line)
    }

    /// The diagnostics that show on a line, those that start earlier too.
    pub fn covering_line(&self, line: usize) -> (out: Vec<Diagnostic>)
        ensures
            diags(out@) == covering_of(self.view(), line as int),
    {
        covering_list(&self.list, line)
    }

    /// A fingerprint of what shows on a line: ranges and severities. Lines
    /// without diagnostics have the same one.
    pub fn line_hash(&self, line: usize) -> (h: u64)
        ensures
            ({
                let shown = covering_of(self.view(), line as int);
                h == fingerprint(diag_bytes(shown, shown.len() as int))
            }),
    {
        let shown = self.covering(line);
        let ghost all = diags(shown@);
        let mut bytes: Vec<u8> = Vec::new();
        let mut k: usize = 0;
        while k < shown.len()
            invariant
                k <= shown.len(),
                all == diags(shown@),
                bytes@ == diag_bytes(all, k as int),
            decreases shown.len() - k,
        {
            let d = &shown[k];
            proof {
                assert(all[k as int] == d.model());
            }
            push_word(&mut bytes, d.range.start.line);
            push_word(&mut bytes, d.range.start.character);
            push_word(&mut bytes, d.range.end.line);
            push_word(&mut bytes, d.range.end.character);
            bytes.push(severity_rank(d.severity));
            k += 1;
            proof {
                assert(bytes@ =~= diag_bytes(all, k as int));
            }
        }
        hash_bytes(bytes.as_slice())
    }
}

/// Which results a picker shows.
#[derive(Debug, Clone, Copy, PartialEq, Eq, Structural)]
pub enum LspResultType {
    References,
    DocumentSymbols,
    WorkspaceSymbols,
    CallHierarchy,
    TypeHierarchy,
}

/// What was asked of the language servers and not yet sent. Several requests
/// can wait at once.
#[derive(Debug)]
pub struct LspIntents {
    pub goto_definition: bool,
    pub goto_definition_new_tab: bool,
    pub goto_implementation: bool,
    pub goto_implementation_new_tab: bool,
    pub goto_type: bool,
    pub hover: bool,
    pub completion: bool,
    pub format_document: bool,
    pub code_actions: bool,
    pub call_hierarchy_incoming: bool,
    pub call_hierarchy_outgoing: bool,
    pub type_hierarchy: bool,
    pub find_references: bool,
    pub document_symbols: bool,
    pub workspace_symbols: bool,
    pub organize_imports: bool,
    pub rename: Option<String>,
    pub semantic_tokens: bool,
}

impl LspIntents {
    /// Nothing was asked.
    pub open spec fn is_clear(self) -> bool {
        !self.goto_definition && !self.goto_definition_new_tab && !self.goto_implementation
            && !self.goto_implementation_new_tab && !self.goto_type && !self.hover
            && !self.completion && !self.format_document && !self.code_actions
            && !self.call_hierarchy_incoming && !self.call_hierarchy_outgoing
            && !self.type_hierarchy && !self.find_references && !self.document_symbols
            && !self.workspace_symbols && !self.organize_imports && self.rename is None
            && !self.semantic_tokens
    }

    pub fn new() -> (i: LspIntents)
        ensures
            i.is_clear(),
    {
        LspIntents {
            goto_definition: false,
            goto_definition_new_tab: false,
            goto_implementation: false,
            goto_implementation_new_tab: false,
            goto_type: false,
            hover: false,
            completion: false,
            format_document: false,
            code_actions: false,
            call_hierarchy_incoming: false,
            call_hierarchy_outgoing: false,
            type_hierarchy: false,
            find_references: false,
            document_symbols: false,
            workspace_symbols: false,
            organize_imports: false,
            rename: None,
            semantic_tokens: false,
        }
    }

    /// Clears all that was asked.
    pub fn clear(&mut self)
        ensures
            final(self).is_clear(),
    {
        *self = LspIntents::new();
    }
}

/// What the editor knows of its language servers.
#[derive(Debug)]
pub struct LspState {
    /// Errors, warnings, information and hints of the current file
    pub diagnostic_count: (usize, usize, usize, usize),
    pub hover_info: Option<String>,
    pub hover_scroll: usize,
    pub hover_h_scroll: usize,
    pub hover_position: Option<(usize, usize)>,
    pub hover_content_type: HoverContentType,
    /// Synchronisation state by file path
    pub document_sync: TextMap<DocumentSyncState>,
    pub hover_cache: Option<HoverCache>,
    pub status: String,
    /// Servers by language
    pub active_lsp_servers: Vec<(String, String)>,
    pub needs_lsp_init: bool,
    /// A file that the server is to be told is closed
    pub pending_did_close_file: Option<String>,
    /// The results that a picker shows
    pub active_lsp_result_type: Option<LspResultType>,
    pub current_file_diagnostics: Vec<Diagnostic>,
    pub diagnostic_anchors: Option<DiagnosticAnchors>,
    /// The file that the diagnostics are of
    pub diagnostics_file_path: Option<String>,
    pub current_file_lsp_version: i32,
    pub current_file_lsp_sent_version: i32,
    /// Whether the diagnostics are to be asked for again
    pub diagnostics_stale: bool,
}

/// A model of what the editor knows of its language servers.
pub ghost struct Lsp {
    pub count: (usize, usize, usize, usize),
    pub hover: Option<Seq<char>>,
    pub hover_scroll: (usize, usize),
    pub hover_position: Option<(usize, usize)>,
    pub hover_type: HoverContentType,
    pub sync: Map<Seq<char>, Sync>,
    pub cache: Option<HoverCache>,
    pub status: Seq<char>,
    pub servers: Seq<(Seq<char>, Seq<char>)>,
    pub needs_init: bool,
    pub closing: Option<Seq<char>>,
    pub shown: Option<LspResultType>,
    pub diags: Seq<Diag>,
    pub anchors: Option<Anchors>,
    pub diags_path: Option<Seq<char>>,
    pub version: i32,
    pub sent_version: i32,
    pub stale: bool,
}

/// The synchronisation states of the documents.
pub open spec fn sync_models(m: Map<Seq<char>, DocumentSyncState>) -> Map<Seq<char>, Sync> {
    m.map_values(|s: DocumentSyncState| s.model())
}

/// The state of a document, or that of a document not yet seen.
pub open spec fn sync_at(m: Map<Seq<char>, Sync>, path: Seq<char>) -> Sync {
    if m.dom().contains(path) {
        m[path]
    } else {
        Sync::new()
    }
}

impl LspState {
    pub open spec fn model(self) -> Lsp {
        Lsp {
            count: self.diagnostic_count,
            hover: opt_view(self.hover_info),
            hover_scroll: (self.hover_scroll, self.hover_h_scroll),
            hover_position: self.hover_position,
            hover_type: self.hover_content_type,
            sync: sync_models(self.document_sync@),
            cache: self.hover_cache,
            status: self.status@,
            servers: self.active_lsp_servers@.map_values(|p: (String, String)| (p.0@, p.1@)),
            needs_init: self.needs_lsp_init,
            closing: opt_view(self.pending_did_close_file),
            shown: self.active_lsp_result_type,
            diags: diags(self.current_file_diagnostics@),
            anchors: anchors_model(self.diagnostic_anchors),
            diags_path: opt_view(self.diagnostics_file_path),
            version: self.current_file_lsp_version,
            sent_version: self.current_file_lsp_sent_version,
            stale: self.diagnostics_stale,
        }
    }

    pub fn new() -> (s: LspState)
        ensures
            s.model() == new_lsp(),
    {
        let s = LspState {
            diagnostic_count: (0, 0, 0, 0),
            hover_info: None,
            hover_scroll: 0,
            hover_h_scroll: 0,
            hover_position: None,
            hover_content_type: HoverContentType::LspHover,
            document_sync: TextMap::new(),
            hover_cache: None,
            status: String::new(),
            active_lsp_servers: Vec::new(),
            needs_lsp_init: false,
            pending_did_close_file: None,
            active_lsp_result_type: None,
            current_file_diagnostics: Vec::new(),
            diagnostic_anchors: None,
            diagnostics_file_path: None,
            current_file_lsp_version: 0,
            current_file_lsp_sent_version: 0,
            diagnostics_stale: false,
        };
        proof {
            assert(s.model().servers =~= Seq::empty());
            assert(s.model().diags =~= Seq::empty());
            assert(s.model().sync =~= Map::empty());
        }
        s
    }

    fn put_state(&mut self, path: &str, state: DocumentSyncState)
        ensures
            final(self).model() == (Lsp {
                sync: old(self).model().sync.insert(path@, state.model()),
                ..old(self).model()
            }),
    {
        let ghost before = self.document_sync@;
        self.document_sync.insert(path, state);
        proof {
            assert(sync_models(before.insert(path@, state)) =~= sync_models(before).insert(
                path@,
                state.model(),
            ));
        }
    }

    /// A copy of the state of a document; a new one where it has none yet.
    fn state_of(&self, path: &str) -> (s: DocumentSyncState)
        ensures
            s.model() == sync_at(self.model().sync, path@),
    {
        match self.document_sync.get(path) {
            Some(s) => s.copy(),
            None => DocumentSyncState::new(),
        }
    }

    /// The content of a document changed.
    pub fn mark_document_modified(&mut self, path: &str)
        ensures
            final(self).model() == (Lsp {
                sync: old(self).model().sync.insert(
                    path@,
                    Sync { modified: true, ..sync_at(old(self).model().sync, path@) },
                ),
                ..old(self).model()
            }),
    {
        let mut state = self.state_of(path);
        state.mark_modified();
        self.put_state(path, state);
    }

    /// A document was saved.
    pub fn mark_document_saved(&mut self, path: &str)
        ensures
            final(self).model() == (Lsp {
                sync: old(self).model().sync.insert(
                    path@,
                    Sync { saved: true, ..sync_at(old(self).model().sync, path@) },
                ),
                ..old(self).model()
            }),
    {
        let mut state = self.state_of(path);
        state.mark_saved();
        self.put_state(path, state);
    }

    /// Forgets a document.
    pub fn remove_document(&mut self, path: &str)
        ensures
            final(self).model() == (Lsp {
                sync: old(self).model().sync.remove(path@),
                ..old(self).model()
            }),
    {
        let ghost before = self.document_sync@;
        self.document_sync.remove(path);
        proof {
            assert(sync_models(before.remove(path@)) =~= sync_models(before).remove(path@));
        }
    }

    /// The synchronisation state of a document, if it has one.
    pub fn document_state(&self, path: &str) -> (res: Option<&DocumentSyncState>)
        ensures
            match res {
                Some(s) => self.model().sync.dom().contains(path@) && s.model()
                    == self.model().sync[path@],
                None => !self.model().sync.dom().contains(path@),
            },
    {
        self.document_sync.get(path)
    }

    /// The languages of the servers that run.
    pub fn running_server_languages(&self) -> (out: Vec<String>)
        ensures
            crate::unicode::views(out@) == self.model().servers.map_values(
                |p: (Seq<char>, Seq<char>)| p.0,
            ),
    {
        let mut out: Vec<String> = Vec::new();
        let mut k: usize = 0;
        while k < self.active_lsp_servers.len()
            invariant
                k <= self.active_lsp_servers.len(),
                out.len() == k,
                forall|i: int|
                    0 <= i < k ==> (#[trigger] out@[i])@ == self.active_lsp_servers@[i].0@,
            decreases self.active_lsp_servers.len() - k,
        {
            out.push(self.active_lsp_servers[k].0.clone());
            k += 1;
        }
        proof {
            assert(crate::unicode::views(out@) =~= self.model().servers.map_values(
                |p: (Seq<char>, Seq<char>)| p.0,
            ));
        }
        out
    }

    /// The cached diagnostics that show on a line, by their own ranges.
    pub fn diagnostics_covering_line(&self, line: usize) -> (out: Vec<Diagnostic>)
        ensures
            diags(out@) == covering_of(self.model().diags, line as int),
    {
        covering_list(&self.current_file_diagnostics, line)
    }

    /// Replaces the cached diagnostics; those without a valid range are left
    /// out, and none is anchored yet.
    pub fn set_current_file_diagnostics(&mut self, diagnostics: Vec<Diagnostic>)
        ensures
            final(self).model() == (Lsp {
                diags: valid_diags(diags(diagnostics@), diagnostics.len() as int),
                anchors: None,
                ..old(self).model()
            }),
    {
        let ghost all = diags(diagnostics@);
        let mut list: Vec<Diagnostic> = Vec::new();
        let mut k: usize = 0;
        proof {
            assert(diags(list@) =~= valid_diags(all, 0));
        }
        while k < diagnostics.len()
            invariant
                k <= diagnostics.len(),
                all == diags(diagnostics@),
                diags(list@) == valid_diags(all, k as int),
            decreases diagnostics.len() - k,
        {
            let d = &diagnostics[k];
            proof {
                assert(all[k as int] == d.model());
            }
            if diagnostic_range_is_valid(&d.range) {
                let ghost before = diags(list@);
                let c = d.copy();
                list.push(c);
                proof {
                    assert(diags(list@) =~= before.push(d.model()));
                }
            }
            k += 1;
        }
        self.current_file_diagnostics = list;
        self.diagnostic_anchors = None;
    }

    /// Anchors the cached diagnostics in the text of a buffer, so that they
    /// can follow its edits.
    pub fn anchor_current_file_diagnostics(&mut self, buffer: &Buffer, source_version: u64)
        ensures
            final(self).model() == (Lsp {
                anchors: Some(
                    Anchors {
                        list: old(self).model().diags.map_values(
                            |d: Diag| anchor_of(buffer.text(), d.range),
                        ),
                        version: source_version,
                    },
                ),
                ..old(self).model()
            }),
    {
        let ghost all = self.model().diags;
        let mut anchors: Vec<DiagnosticAnchor> = Vec::new();
        let mut k: usize = 0;
        while k < self.current_file_diagnostics.len()
            invariant
                k <= self.current_file_diagnostics.len(),
                all == diags(self.current_file_diagnostics@),
                *self == *old(self),
                anchors.len() == k,
                forall|i: int|
                    0 <= i < k ==> #[trigger] anchors@[i] == anchor_of(
                        buffer.text(),
                        all[i].range,
                    ),
            decreases self.current_file_diagnostics.len() - k,
        {
            let range = self.current_file_diagnostics[k].range;
            proof {
                assert(all[k as int].range == range);
            }
            anchors.push(anchor_for(buffer, range));
            k += 1;
        }
        proof {
            assert(anchors@ =~= all.map_values(|d: Diag| anchor_of(buffer.text(), d.range)));
        }
        self.diagnostic_anchors = Some(DiagnosticAnchors { anchors, source_version });
    }

    /// Drops the cached diagnostics and their anchors.
    pub fn clear_current_file_diagnostics(&mut self)
        ensures
            final(self).model() == (Lsp {
                diags: Seq::empty(),
                anchors: None,
                ..old(self).model()
            }),
    {
        self.current_file_diagnostics = Vec::new();
        self.diagnostic_anchors = None;
        proof {
            assert(self.model().diags =~= Seq::empty());
        }
    }
}

pub open spec fn new_lsp() -> Lsp {
    Lsp {
        count: (0, 0, 0, 0),
        hover: None,
        hover_scroll: (0, 0),
        hover_position: None,
        hover_type: HoverContentType::LspHover,
        sync: Map::empty(),
        cache: None,
        status: Seq::empty(),
        servers: Seq::empty(),
        needs_init: false,
        closing: None,
        shown: None,
        diags: Seq::empty(),
        anchors: None,
        diags_path: None,
        version: 0,
        sent_version: 0,
        stale: false,
    }
}

/// Cached diagnostics all have valid ranges, whatever a server sent.
pub proof fn cached_ranges_are_valid(list: Seq<Diag>, k: int)
    requires
        0 <= k <= list.len(),
    ensures
        forall|i: int| 0 <= i < valid_diags(list, k).len() ==> range_valid(
            (#[trigger] valid_diags(list, k)[i]).range,
        ),
    decreases k,
{
    if k > 0 {
        cached_ranges_are_valid(list, k - 1);
    }
}

} // verus!
