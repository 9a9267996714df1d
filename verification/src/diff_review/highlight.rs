//! Per-language syntax highlighting for the branch review.
//!
//! A patch is coloured with the grammars of the files it changes. Of each file
//! the two sides of the patch are rebuilt: context and added lines for the new
//! side, context and removed lines for the old one. Each is parsed, and the
//! spans go back to the lines that they came from. Parsing is outside this
//! module: it says what must be parsed, and takes the spans.
use crate::fmt::{byte_count, byte_len};
use crate::highlight_index::Highlight;
use crate::native_diff::{DiffFile, PatchLine, PatchLineKind, ReviewPatch};
use crate::syntax::{detect_from_path, extension_of, language_of, HighlightGroup, Language};
use crate::text::same_text;
use crate::unicode::views;
use vstd::prelude::*;

verus! {

/// A model of a highlight: its start, its end and its group.
pub type Mark = (int, int, HighlightGroup);

pub open spec fn marks(spans: Seq<Highlight>) -> Seq<Mark> {
    spans.map_values(|h: Highlight| (h.0.start as int, h.0.end as int, h.1))
}

/// Total bytes of source that one review may parse. Files behind that keep
/// their plain colours.
pub const MAX_PARSE_BYTES: usize = 2_097_152;

/// A side of a patch.
#[derive(Debug, Clone, Copy, PartialEq, Eq, Structural)]
pub enum Side {
    New,
    Old,
}

impl Side {
    /// The side shows lines of this kind.
    pub open spec fn shows(self, kind: PatchLineKind) -> bool {
        kind is Context || match self {
            Side::New => kind is Added,
            Side::Old => kind is Removed,
        }
    }

    /// Whether the side shows lines of a kind.
    pub fn covers(self, kind: PatchLineKind) -> (res: bool)
        ensures
            res == self.shows(kind),
    {
        match (self, kind) {
            (_, PatchLineKind::Context) => true,
            (Side::New, PatchLineKind::Added) => true,
            (Side::Old, PatchLineKind::Removed) => true,
            _ => false,
        }
    }
}

/// A source that must be parsed.
#[derive(Debug, PartialEq, Eq)]
pub struct ParseRequest {
    pub language: Language,
    pub source: String,
}

/// A source that was parsed: the spans of each of its lines, or nothing where
/// its grammar could not be loaded.
#[derive(Debug)]
pub struct ParsedSource {
    pub language: Language,
    pub source: String,
    pub lines: Option<Vec<Vec<Highlight>>>,
}

pub open spec fn line_marks(lines: Seq<Vec<Highlight>>) -> Seq<Seq<Mark>> {
    lines.map_values(|l: Vec<Highlight>| marks(l@))
}

/// The code lines of a file among the first `k` lines of a patch.
pub open spec fn rows_of(lines: Seq<PatchLine>, file: usize, k: int) -> Seq<usize>
    decreases k,
{
    if k <= 0 || k > lines.len() {
        Seq::empty()
    } else {
        let before = rows_of(lines, file, k - 1);
        let l = lines[k - 1];
        if (l.kind is Added || l.kind is Removed || l.kind is Context) && l.file == Some(file) {
            before.push((k - 1) as usize)
        } else {
            before
        }
    }
}

/// Those of the first `k` rows that a side shows and that have no spans yet.
pub open spec fn open_rows(
    rows: Seq<usize>,
    lines: Seq<PatchLine>,
    done: Seq<Seq<Mark>>,
    side: Side,
    k: int,
) -> Seq<usize>
    decreases k,
{
    if k <= 0 || k > rows.len() {
        Seq::empty()
    } else {
        let before = open_rows(rows, lines, done, side, k - 1);
        let row = rows[k - 1];
        if side.shows(lines[row as int].kind) && done[row as int].len() == 0 {
            before.push(row)
        } else {
            before
        }
    }
}

pub open spec fn body_at(bodies: Seq<Seq<char>>, row: usize) -> Seq<char> {
    if row < bodies.len() {
        bodies[row as int]
    } else {
        Seq::empty()
    }
}

/// The first `k` rows, a line for each.
pub open spec fn source_of(rows: Seq<usize>, bodies: Seq<Seq<char>>, k: int) -> Seq<char>
    decreases k,
{
    if k <= 0 || k > rows.len() {
        Seq::empty()
    } else if k == 1 {
        body_at(bodies, rows[0])
    } else {
        source_of(rows, bodies, k - 1).push('\n') + body_at(bodies, rows[k - 1])
    }
}

/// What parsing a source gave, if it is among the sources from the `k`th on.
pub open spec fn parse_of(parsed: Seq<ParsedSource>, language: Language, source: Seq<char>, k: int) -> Option<
    int,
>
    decreases parsed.len() - k,
{
    if k < 0 || k >= parsed.len() {
        None
    } else if parsed[k].language == language && parsed[k].source@ == source {
        Some(k)
    } else {
        parse_of(parsed, language, source, k + 1)
    }
}

/// The first `k` rows got the spans of the lines that they are.
pub open spec fn with_spans(
    done: Seq<Seq<Mark>>,
    rows: Seq<usize>,
    spans: Seq<Seq<Mark>>,
    k: int,
) -> Seq<Seq<Mark>>
    decreases k,
{
    if k <= 0 || k > rows.len() {
        done
    } else {
        let before = with_spans(done, rows, spans, k - 1);
        if k - 1 < spans.len() {
            before.update(rows[k - 1] as int, spans[k - 1])
        } else {
            before
        }
    }
}

/// How far the highlighting of a patch has come.
pub ghost struct Progress {
    pub done: Seq<Seq<Mark>>,
    pub budget: int,
    /// No more is parsed.
    pub full: bool,
    /// A source that must be parsed first.
    pub wanted: Option<(Language, Seq<char>)>,
}

impl Progress {
    /// One side of a file.
    pub open spec fn with_side(
        self,
        rows: Seq<usize>,
        patch: ReviewPatch,
        file: DiffFile,
        bodies: Seq<Seq<char>>,
        parsed: Seq<ParsedSource>,
        side: Side,
    ) -> Progress {
        let language = language_of(extension_of(side_path(file, side)));
        let chosen = open_rows(rows, patch.lines@, self.done, side, rows.len() as int);
        let source = source_of(chosen, bodies, chosen.len() as int);
        if self.full || self.wanted is Some || language is None || chosen.len() == 0 {
            self
        } else if byte_count(source) > self.budget {
            Progress { full: true, ..self }
        } else {
            match parse_of(parsed, language->0, source, 0) {
                None => Progress { wanted: Some((language->0, source)), ..self },
                Some(k) => Progress {
                    done: match parsed[k].lines {
                        Some(lines) => with_spans(
                            self.done,
                            chosen,
                            line_marks(lines@),
                            chosen.len() as int,
                        ),
                        None => self.done,
                    },
                    budget: self.budget - byte_count(source),
                    ..self
                },
            }
        }
    }

    pub open spec fn with_file(
        self,
        patch: ReviewPatch,
        index: int,
        bodies: Seq<Seq<char>>,
        parsed: Seq<ParsedSource>,
    ) -> Progress {
        let file = patch.files@[index];
        let rows = rows_of(patch.lines@, index as usize, patch.lines@.len() as int);
        if file.binary || rows.len() == 0 {
            self
        } else {
            self.with_side(rows, patch, file, bodies, parsed, Side::New).with_side(
                rows,
                patch,
                file,
                bodies,
                parsed,
                Side::Old,
            )
        }
    }
}

/// The path whose language a side of a file is written in: a renamed file's
/// old side in that of its old name.
pub open spec fn side_path(file: DiffFile, side: Side) -> Seq<char> {
    match side {
        Side::New => file.path@,
        Side::Old => match file.old_path {
            Some(path) => path@,
            None => file.path@,
        },
    }
}

/// How far the highlighting has come after the first `k` files.
pub open spec fn progress_of(
    patch: ReviewPatch,
    bodies: Seq<Seq<char>>,
    parsed: Seq<ParsedSource>,
    k: int,
) -> Progress
    decreases k,
{
    if k <= 0 || k > patch.files@.len() {
        Progress {
            done: Seq::new(patch.lines@.len(), |i: int| Seq::empty()),
            budget: MAX_PARSE_BYTES as int,
            full: false,
            wanted: None,
        }
    } else {
        progress_of(patch, bodies, parsed, k - 1).with_file(patch, k - 1, bodies, parsed)
    }
}

fn collect_rows(lines: &Vec<PatchLine>, file: usize) -> (rows: Vec<usize>)
    ensures
        rows@ == rows_of(lines@, file, lines.len() as int),
        forall|i: int| 0 <= i < rows.len() ==> (#[trigger] rows@[i]) < lines.len(),
{
    let mut rows: Vec<usize> = Vec::new();
    let mut k: usize = 0;
    while k < lines.len()
        invariant
            k <= lines.len(),
            rows@ == rows_of(lines@, file, k as int),
            forall|i: int| 0 <= i < rows.len() ==> (#[trigger] rows@[i]) < k,
        decreases lines.len() - k,
    {
        let is_code = match lines[k].kind {
            PatchLineKind::Added | PatchLineKind::Removed | PatchLineKind::Context => true,
            _ => false,
        };
        let here = match lines[k].file {
            Some(f) => f == file,
            None => false,
        };
        if is_code && here {
            rows.push(k);
        }
        k += 1;
    }
    rows
}

fn collect_open(
    rows: &Vec<usize>,
    lines: &Vec<PatchLine>,
    done: &Vec<Vec<Highlight>>,
    side: Side,
) -> (chosen: Vec<usize>)
    requires
        done.len() == lines.len(),
        forall|i: int| 0 <= i < rows.len() ==> (#[trigger] rows@[i]) < lines.len(),
    ensures
        chosen@ == open_rows(rows@, lines@, line_marks(done@), side, rows.len() as int),
        forall|i: int| 0 <= i < chosen.len() ==> (#[trigger] chosen@[i]) < lines.len(),
{
    let mut chosen: Vec<usize> = Vec::new();
    let mut k: usize = 0;
    while k < rows.len()
        invariant
            k <= rows.len(),
            done.len() == lines.len(),
            forall|i: int| 0 <= i < rows.len() ==> (#[trigger] rows@[i]) < lines.len(),
            forall|i: int| 0 <= i < chosen.len() ==> (#[trigger] chosen@[i]) < lines.len(),
            chosen@ == open_rows(rows@, lines@, line_marks(done@), side, k as int),
        decreases rows.len() - k,
    {
        let row: usize = rows[k];
        proof {
            assert(line_marks(done@)[row as int].len() == done@[row as int].len());
        }
        if side.covers(lines[row].kind) && done[row].len() == 0 {
            chosen.push(row);
        }
        k += 1;
    }
    chosen
}

fn join_rows(rows: &Vec<usize>, bodies: &Vec<String>) -> (source: String)
    ensures
        source@ == source_of(rows@, views(bodies@), rows.len() as int),
{
    let mut source = String::new();
    let mut k: usize = 0;
    while k < rows.len()
        invariant
            k <= rows.len(),
            source@ == source_of(rows@, views(bodies@), k as int),
        decreases rows.len() - k,
    {
        if k > 0 {
            source.push('\n');
        }
        let row: usize = rows[k];
        let ghost before = source@;
        if row < bodies.len() {
            source.append(bodies[row].as_str());
        }
        proof {
            assert(source@ =~= before + body_at(views(bodies@), row));
            if k == 0 {
                assert(source@ =~= body_at(views(bodies@), row));
            }
        }
        k += 1;
    }
    source
}

fn find_parse(parsed: &Vec<ParsedSource>, language: Language, source: &str) -> (res: Option<usize>)
    ensures
        match res {
            Some(k) => k < parsed.len() && parse_of(parsed@, language, source@, 0) == Some(k as int),
            None => parse_of(parsed@, language, source@, 0) is None,
        },
{
    let mut k: usize = 0;
    while k < parsed.len()
        invariant
            k <= parsed.len(),
            parse_of(parsed@, language, source@, k as int) == parse_of(
                parsed@,
                language,
                source@,
                0,
            ),
        decreases parsed.len() - k,
    {
        if parsed[k].language == language && same_text(parsed[k].source.as_str(), source) {
            return Some(k);
        }
        k += 1;
    }
    None
}

fn copy_spans(spans: &Vec<Highlight>) -> (out: Vec<Highlight>)
    ensures
        marks(out@) == marks(spans@),
{
    let mut out: Vec<Highlight> = Vec::new();
    let mut k: usize = 0;
    while k < spans.len()
        invariant
            k <= spans.len(),
            out.len() == k,
            forall|i: int| 0 <= i < k ==> marks(out@)[i] == #[trigger] marks(spans@)[i],
        decreases spans.len() - k,
    {
        let h = &spans[k];
        out.push((h.0.start..h.0.end, h.1));
        proof {
            assert forall|i: int| 0 <= i < k + 1 implies marks(out@)[i] == #[trigger] marks(
                spans@,
            )[i] by {
                assert(marks(out@)[i] == (out@[i].0.start as int, out@[i].0.end as int, out@[i].1));
                if i < k {
                    assert(marks(out@.drop_last())[i] == marks(out@)[i]);
                }
            }
        }
        k += 1;
    }
    proof {
        assert(marks(out@) =~= marks(spans@));
    }
    out
}

/// A copy of the highlights of each line.
pub fn copy_lines(lines: &Vec<Vec<Highlight>>) -> (out: Vec<Vec<Highlight>>)
    ensures
        line_marks(out@) == line_marks(lines@),
{
    let mut out: Vec<Vec<Highlight>> = Vec::new();
    let mut k: usize = 0;
    while k < lines.len()
        invariant
            k <= lines.len(),
            out.len() == k,
            forall|i: int| 0 <= i < k ==> marks((#[trigger] out@[i])@) == marks(lines@[i]@),
        decreases lines.len() - k,
    {
        out.push(copy_spans(&lines[k]));
        k += 1;
    }
    proof {
        assert(line_marks(out@) =~= line_marks(lines@));
    }
    out
}

fn assign_spans(done: &mut Vec<Vec<Highlight>>, rows: &Vec<usize>, spans: &Vec<Vec<Highlight>>)
    requires
        forall|i: int| 0 <= i < rows.len() ==> (#[trigger] rows@[i]) < old(done).len(),
    ensures
        final(done).len() == old(done).len(),
        line_marks(final(done)@) == with_spans(
            line_marks(old(done)@),
            rows@,
            line_marks(spans@),
            rows.len() as int,
        ),
{
    let ghost start = line_marks(done@);
    let mut k: usize = 0;
    while k < rows.len()
        invariant
            k <= rows.len(),
            done.len() == old(done).len(),
            forall|i: int| 0 <= i < rows.len() ==> (#[trigger] rows@[i]) < done.len(),
            line_marks(done@) == with_spans(start, rows@, line_marks(spans@), k as int),
        decreases rows.len() - k,
    {
        if k < spans.len() {
            let row: usize = rows[k];
            let ghost before = done@;
            let copy = copy_spans(&spans[k]);
            done[row] = copy;
            proof {
                assert(line_marks(done@) =~= line_marks(before).update(row as int, marks(copy@)));
                assert(line_marks(spans@)[k as int] == marks(spans@[k as int]@));
            }
        }
        k += 1;
    }
}

/// What came of one side of a file.
enum SideOutcome {
    Open,
    Full,
    Wanted(ParseRequest),
}

/// Language highlights for each line of a patch, in byte coordinates of the
/// line's body (with its marker column already stripped).
#[derive(Debug)]
pub struct PatchHighlights {
    lines: Vec<Vec<Highlight>>,
    none: Vec<Highlight>,
}

impl PatchHighlights {
    /// The highlights of every line.
    pub closed spec fn model(self) -> Seq<Seq<Mark>> {
        self.lines@.map_values(|l: Vec<Highlight>| marks(l@))
    }

    /// The highlights of a line; none behind the last.
    pub open spec fn of_line(self, i: int) -> Seq<Mark> {
        if 0 <= i < self.model().len() {
            self.model()[i]
        } else {
            Seq::empty()
        }
    }

    #[verifier::type_invariant]
    closed spec fn inv(self) -> bool {
        self.none.len() == 0
    }

    /// The given highlights, line by line.
    pub fn from_lines(lines: Vec<Vec<Highlight>>) -> (res: PatchHighlights)
        ensures
            res.model() == lines@.map_values(|l: Vec<Highlight>| marks(l@)),
    {
        PatchHighlights { lines, none: Vec::new() }
    }

    fn side(
        rows: &Vec<usize>,
        patch: &ReviewPatch,
        file: usize,
        bodies: &Vec<String>,
        parsed: &Vec<ParsedSource>,
        side: Side,
        done: &mut Vec<Vec<Highlight>>,
        budget: &mut usize,
    ) -> (out: SideOutcome)
        requires
            file < patch.files.len(),
            old(done).len() == patch.lines.len(),
            forall|i: int| 0 <= i < rows.len() ==> (#[trigger] rows@[i]) < patch.lines.len(),
        ensures
            final(done).len() == old(done).len(),
            (Progress {
                done: line_marks(final(done)@),
                budget: *final(budget) as int,
                full: out is Full,
                wanted: match out {
                    SideOutcome::Wanted(r) => Some((r.language, r.source@)),
                    _ => None,
                },
            }) == (Progress {
                done: line_marks(old(done)@),
                budget: *old(budget) as int,
                full: false,
                wanted: None,
            }).with_side(
                rows@,
                *patch,
                patch.files@[file as int],
                views(bodies@),
                parsed@,
                side,
            ),
    {
        let entry = &patch.files[file];
        let path = match (side, &entry.old_path) {
            (Side::Old, Some(path)) => path.as_str(),
            _ => entry.path.as_str(),
        };
        let language = match detect_from_path(path) {
            Some(language) => language,
            None => {
                return SideOutcome::Open;
            },
        };
        let chosen = collect_open(rows, &patch.lines, done, side);
        if chosen.len() == 0 {
            return SideOutcome::Open;
        }
        let source = join_rows(&chosen, bodies);
        let size: usize = byte_len(source.as_str());
        if size > *budget {
            return SideOutcome::Full;
        }
        match find_parse(parsed, language, source.as_str()) {
            None => SideOutcome::Wanted(ParseRequest { language, source }),
            Some(k) => {
                *budget = *budget - size;
                if let Some(lines) = &parsed[k].lines {
                    assign_spans(done, &chosen, lines);
                }
                SideOutcome::Open
            },
        }
    }

    /// The highlights of a patch, given the bodies of its lines and the sources
    /// parsed so far; or the next source that must be parsed.
    pub fn compute(patch: &ReviewPatch, bodies: &Vec<String>, parsed: &Vec<ParsedSource>) -> (res:
        Result<PatchHighlights, ParseRequest>)
        ensures
            ({
                let p = progress_of(*patch, views(bodies@), parsed@, patch.files.len() as int);
                match res {
                    Ok(h) => p.wanted is None && h.model() == p.done,
                    Err(r) => p.wanted == Some((r.language, r.source@)),
                }
            }),
    {
        let ghost texts = views(bodies@);
        let mut done: Vec<Vec<Highlight>> = Vec::new();
        let mut k: usize = 0;
        while k < patch.lines.len()
            invariant
                k <= patch.lines.len(),
                done.len() == k,
                forall|i: int| 0 <= i < k ==> (#[trigger] done@[i])@.len() == 0,
            decreases patch.lines.len() - k,
        {
            done.push(Vec::new());
            k += 1;
        }
        proof {
            let start = progress_of(*patch, texts, parsed@, 0);
            assert(line_marks(done@) =~= start.done) by {
                assert forall|i: int| 0 <= i < done.len() implies line_marks(done@)[i]
                    == start.done[i] by {
                    assert(marks(done@[i]@) =~= Seq::<Mark>::empty());
                }
            }
        }
        let mut budget: usize = MAX_PARSE_BYTES;
        let mut file: usize = 0;
        while file < patch.files.len()
            invariant
                file <= patch.files.len(),
                texts == views(bodies@),
                done.len() == patch.lines.len(),
                (Progress {
                    done: line_marks(done@),
                    budget: budget as int,
                    full: false,
                    wanted: None,
                }) == progress_of(*patch, texts, parsed@, file as int),
            decreases patch.files.len() - file,
        {
            let rows = collect_rows(&patch.lines, file);
            if !patch.files[file].binary && rows.len() > 0 {
                let first = Self::side(
                    &rows,
                    patch,
                    file,
                    bodies,
                    parsed,
                    Side::New,
                    &mut done,
                    &mut budget,
                );
                match first {
                    SideOutcome::Open => {},
                    SideOutcome::Full => {
                        proof {
                            stopped_stays(*patch, texts, parsed@, file as int + 1);
                        }
                        return Ok(PatchHighlights::from_lines(done));
                    },
                    SideOutcome::Wanted(request) => {
                        proof {
                            stopped_stays(*patch, texts, parsed@, file as int + 1);
                        }
                        return Err(request);
                    },
                }
                let second = Self::side(
                    &rows,
                    patch,
                    file,
                    bodies,
                    parsed,
                    Side::Old,
                    &mut done,
                    &mut budget,
                );
                match second {
                    SideOutcome::Open => {},
                    SideOutcome::Full => {
                        proof {
                            stopped_stays(*patch, texts, parsed@, file as int + 1);
                        }
                        return Ok(PatchHighlights::from_lines(done));
                    },
                    SideOutcome::Wanted(request) => {
                        proof {
                            stopped_stays(*patch, texts, parsed@, file as int + 1);
                        }
                        return Err(request);
                    },
                }
            }
            file += 1;
        }
        Ok(PatchHighlights::from_lines(done))
    }

    /// The highlights of a line; none behind the last.
    pub fn line(&self, patch_line: usize) -> (res: &Vec<Highlight>)
        ensures
            marks(res@) == self.of_line(patch_line as int),
    {
        proof {
            use_type_invariant(self);
            assert(marks(self.none@) =~= Seq::<Mark>::empty());
        }
        if patch_line < self.lines.len() {
            &self.lines[patch_line]
        } else {
            &self.none
        }
    }

    pub fn into_lines(self) -> (res: Vec<Vec<Highlight>>)
        ensures
            self.model() == res@.map_values(|l: Vec<Highlight>| marks(l@)),
    {
        self.lines
    }
}

proof fn stopped_stays(patch: ReviewPatch, bodies: Seq<Seq<char>>, parsed: Seq<ParsedSource>, k: int)
    requires
        0 <= k <= patch.files@.len(),
        ({
            let p = progress_of(patch, bodies, parsed, k);
            p.full || p.wanted is Some
        }),
    ensures
        progress_of(patch, bodies, parsed, patch.files@.len() as int) == progress_of(
            patch,
            bodies,
            parsed,
            k,
        ),
    decreases patch.files@.len() - k,
{
    if k < patch.files@.len() {
        let p = progress_of(patch, bodies, parsed, k);
        let q = progress_of(patch, bodies, parsed, k + 1);
        assert(q == p.with_file(patch, k, bodies, parsed));
        assert(q == p);
        stopped_stays(patch, bodies, parsed, k + 1);
    }
}

/// Lines that are no code keep their plain colours.
pub proof fn only_code_is_highlighted(
    patch: ReviewPatch,
    bodies: Seq<Seq<char>>,
    parsed: Seq<ParsedSource>,
    k: int,
    row: int,
)
    requires
        0 <= k <= patch.files@.len(),
        0 <= row < patch.lines@.len(),
        patch.lines@.len() <= usize::MAX,
        !(patch.lines@[row].kind is Added || patch.lines@[row].kind is Removed
            || patch.lines@[row].kind is Context),
    ensures
        progress_of(patch, bodies, parsed, k).done.len() == patch.lines@.len(),
        progress_of(patch, bodies, parsed, k).done[row].len() == 0,
    decreases k,
{
    if k > 0 {
        only_code_is_highlighted(patch, bodies, parsed, k - 1, row);
        let p = progress_of(patch, bodies, parsed, k - 1);
        let rows = rows_of(patch.lines@, (k - 1) as usize, patch.lines@.len() as int);
        rows_are_code(patch.lines@, (k - 1) as usize, patch.lines@.len() as int);
        side_keeps(p, rows, patch, patch.files@[k - 1], bodies, parsed, Side::New, row);
        let q = p.with_side(rows, patch, patch.files@[k - 1], bodies, parsed, Side::New);
        side_keeps(q, rows, patch, patch.files@[k - 1], bodies, parsed, Side::Old, row);
    }
}

proof fn rows_are_code(lines: Seq<PatchLine>, file: usize, k: int)
    requires
        0 <= k <= lines.len() <= usize::MAX,
    ensures
        forall|i: int|
            0 <= i < rows_of(lines, file, k).len() ==> (#[trigger] rows_of(lines, file, k)[i]) < k
                && (lines[rows_of(lines, file, k)[i] as int].kind is Added
                || lines[rows_of(lines, file, k)[i] as int].kind is Removed
                || lines[rows_of(lines, file, k)[i] as int].kind is Context),
    decreases k,
{
    if k > 0 {
        rows_are_code(lines, file, k - 1);
    }
}

proof fn open_rows_are_rows(
    rows: Seq<usize>,
    lines: Seq<PatchLine>,
    done: Seq<Seq<Mark>>,
    side: Side,
    k: int,
    row: int,
)
    requires
        0 <= k <= rows.len(),
        forall|i: int|
            0 <= i < rows.len() ==> (#[trigger] rows[i]) != row && rows[i] < done.len(),
    ensures
        forall|i: int|
            0 <= i < open_rows(rows, lines, done, side, k).len() ==> (#[trigger] open_rows(
                rows,
                lines,
                done,
                side,
                k,
            )[i]) != row && open_rows(rows, lines, done, side, k)[i] < done.len(),
    decreases k,
{
    if k > 0 {
        open_rows_are_rows(rows, lines, done, side, k - 1, row);
        assert(rows[k - 1] != row);
        let before = open_rows(rows, lines, done, side, k - 1);
        let now = open_rows(rows, lines, done, side, k);
        assert forall|i: int| 0 <= i < now.len() implies (#[trigger] now[i]) != row && now[i]
            < done.len() by {
            if i < before.len() {
                assert(now[i] == before[i]);
            } else {
                assert(now[i] == rows[k - 1]);
            }
        }
    }
}

proof fn with_spans_keeps(
    done: Seq<Seq<Mark>>,
    rows: Seq<usize>,
    spans: Seq<Seq<Mark>>,
    k: int,
    row: int,
)
    requires
        0 <= k <= rows.len(),
        0 <= row < done.len(),
        forall|i: int|
            0 <= i < rows.len() ==> (#[trigger] rows[i]) != row && rows[i] < done.len(),
    ensures
        with_spans(done, rows, spans, k).len() == done.len(),
        with_spans(done, rows, spans, k)[row] == done[row],
    decreases k,
{
    if k > 0 {
        with_spans_keeps(done, rows, spans, k - 1, row);
        assert(rows[k - 1] != row);
    }
}

proof fn side_keeps(
    p: Progress,
    rows: Seq<usize>,
    patch: ReviewPatch,
    file: DiffFile,
    bodies: Seq<Seq<char>>,
    parsed: Seq<ParsedSource>,
    side: Side,
    row: int,
)
    requires
        p.done.len() == patch.lines@.len(),
        0 <= row < p.done.len(),
        forall|i: int|
            0 <= i < rows.len() ==> (#[trigger] rows[i]) != row && rows[i] < p.done.len(),
    ensures
        p.with_side(rows, patch, file, bodies, parsed, side).done.len() == p.done.len(),
        p.with_side(rows, patch, file, bodies, parsed, side).done[row] == p.done[row],
{
    let chosen = open_rows(rows, patch.lines@, p.done, side, rows.len() as int);
    open_rows_are_rows(rows, patch.lines@, p.done, side, rows.len() as int, row);
    let language = language_of(extension_of(side_path(file, side)));
    let source = source_of(chosen, bodies, chosen.len() as int);
    if language is Some {
        if let Some(k) = parse_of(parsed, language->0, source, 0) {
            if let Some(lines) = parsed[k].lines {
                with_spans_keeps(p.done, chosen, line_marks(lines@), chosen.len() as int, row);
            }
        }
    }
}

} // verus!
