//! Frozen comparisons: the names of their stored parts, the cursors of their
//! pages, the marker that a review can be opened again by, and what a request
//! for a rearranged review must hold.
use crate::ai::cursor_json::{cursor_bytes, cursor_values, read_cursor, write_cursor};
use crate::ai::diff_pages::{
    diff_page, is_page, page_at, page_limit, snapshot_ok, DiffPage, PageCursor,
};
use crate::ai::tools::{no_fields, number, object, put, text};
use crate::diff_review::render::{trim_text, trimmed};
use crate::fmt::{decimal, digits, opt_view};
use crate::json::{Js, Json};
use crate::native_diff::ReviewSnapshot;
use crate::text::{chars_of, same_text, slice_string, starts_with};
use base64::engine::general_purpose::URL_SAFE_NO_PAD;
use base64::engine::Engine;
use sha2::Digest;
use vstd::prelude::*;
use vstd::utf8::encode_utf8;

verus! {

/// The URL-safe base64 text of bytes, without padding.
pub uninterp spec fn base64_of(bytes: Seq<u8>) -> Seq<char>;

/// The bytes of a URL-safe base64 text without padding, if it is one.
pub uninterp spec fn base64_bytes(text: Seq<char>) -> Option<Seq<u8>>;

/// `Engine::encode` of the `base64` crate, with its URL-safe alphabet and
/// without padding. What it writes, `Engine::decode` of the same engine reads
/// back.
#[verifier::external_body]
fn base64_encode(bytes: &[u8]) -> (text: String)
    ensures
        text@ == base64_of(bytes@),
        base64_bytes(text@) == Some(bytes@),
{
    URL_SAFE_NO_PAD.encode(bytes)
}

/// `Engine::decode` of the `base64` crate, with its URL-safe alphabet and
/// without padding.
#[verifier::external_body]
fn base64_decode(text: &str) -> (bytes: Option<Vec<u8>>)
    ensures
        match (bytes, base64_bytes(text@)) {
            (Some(b), Some(m)) => b@ == m,
            (None, None) => true,
            _ => false,
        },
{
    URL_SAFE_NO_PAD.decode(text).ok()
}

/// The SHA-256 digest of bytes.
pub uninterp spec fn sha256_of(bytes: Seq<u8>) -> Seq<u8>;

/// `Digest::digest` of the `sha2` crate's `Sha256`, whose digests have 32
/// bytes.
#[verifier::external_body]
fn sha256(bytes: &[u8]) -> (digest: Vec<u8>)
    ensures
        digest@ == sha256_of(bytes@),
        digest.len() == 32,
{
    sha2::Sha256::digest(bytes).to_vec()
}

/// The text under a key of a JSON object, if bytes are such an object and its
/// member a string.
pub uninterp spec fn json_member_text(bytes: Seq<u8>, key: Seq<char>) -> Option<Seq<char>>;

/// The texts under a key of the objects of a JSON array, if a text is such an
/// array; none for an item without one.
pub uninterp spec fn json_item_texts(text: Seq<char>, key: Seq<char>) -> Option<
    Seq<Option<Seq<char>>>,
>;

/// `serde_json::from_slice` to a `Value`, and the string under a key of it.
#[verifier::external_body]
fn member_text(bytes: &[u8], key: &str) -> (res: Option<String>)
    ensures
        opt_view(res) == json_member_text(bytes@, key@),
{
    let value: serde_json::Value = serde_json::from_slice(bytes).ok()?;
    value.get(key)?.as_str().map(str::to_owned)
}

/// `serde_json::from_str` to a `Value`, and the strings under a key of its
/// items, where it is an array. A string of a JSON text is shorter than the
/// text, which has its quotes too.
#[verifier::external_body]
fn item_texts(text: &str, key: &str) -> (res: Option<Vec<Option<String>>>)
    ensures
        match (res, json_item_texts(text@, key@)) {
            (Some(a), Some(b)) => texts_view(a@) == b && forall|i: int|
                0 <= i < a.len() ==> ((#[trigger] a@[i]) matches Some(t) ==> t@.len()
                    < text@.len()),
            (None, None) => true,
            _ => false,
        },
{
    let value: serde_json::Value = serde_json::from_str(text).ok()?;
    let items = value.as_array()?.iter();
    let text_of = |item: &serde_json::Value| item.get(key)?.as_str().map(str::to_owned);
    Some(items.map(text_of).collect())
}

pub open spec fn texts_view(list: Seq<Option<String>>) -> Seq<Option<Seq<char>>> {
    list.map_values(|o: Option<String>| opt_view(o))
}

/// A digit of base sixteen.
pub open spec fn hex_digit(n: int) -> char {
    if n < 10 {
        ('0' as int + n) as char
    } else {
        ('a' as int + (n - 10)) as char
    }
}

/// The first `k` bytes with two digits each.
pub open spec fn hex_of(bytes: Seq<u8>, k: int) -> Seq<char>
    decreases k,
{
    if k <= 0 || k > bytes.len() {
        Seq::empty()
    } else {
        hex_of(bytes, k - 1).push(hex_digit(bytes[k - 1] as int / 16)).push(
            hex_digit(bytes[k - 1] as int % 16),
        )
    }
}

fn digit(n: u8) -> (c: char)
    requires
        n < 16,
    ensures
        c == hex_digit(n as int),
{
    if n < 10 {
        (48 + n) as char
    } else {
        (87 + n) as char
    }
}

/// Bytes with two digits each.
pub fn hex(bytes: &Vec<u8>) -> (s: String)
    ensures
        s@ == hex_of(bytes@, bytes.len() as int),
{
    let mut s = String::new();
    let mut k: usize = 0;
    while k < bytes.len()
        invariant
            k <= bytes.len(),
            s@ == hex_of(bytes@, k as int),
        decreases bytes.len() - k,
    {
        let byte: u8 = bytes[k];
        s.push(digit(byte / 16));
        s.push(digit(byte % 16));
        k += 1;
    }
    s
}

/// Other bytes have other digits.
pub proof fn hex_tells_apart(a: Seq<u8>, b: Seq<u8>, k: int)
    requires
        0 <= k <= a.len(),
        k <= b.len(),
        hex_of(a, k) == hex_of(b, k),
    ensures
        a.take(k) == b.take(k),
        hex_of(a, k).len() == 2 * k,
    decreases k,
{
    hex_length(a, k);
    hex_length(b, k);
    if k > 0 {
        hex_length(a, k - 1);
        hex_length(b, k - 1);
        let x = hex_of(a, k);
        let y = hex_of(b, k);
        assert(hex_of(a, k - 1) =~= x.take(2 * (k - 1)));
        assert(hex_of(b, k - 1) =~= y.take(2 * (k - 1)));
        hex_tells_apart(a, b, k - 1);
        assert(x[2 * k - 2] == hex_digit(a[k - 1] as int / 16));
        assert(y[2 * k - 2] == hex_digit(b[k - 1] as int / 16));
        assert(x[2 * k - 1] == hex_digit(a[k - 1] as int % 16));
        assert(y[2 * k - 1] == hex_digit(b[k - 1] as int % 16));
        digits_differ(a[k - 1] as int / 16, b[k - 1] as int / 16);
        digits_differ(a[k - 1] as int % 16, b[k - 1] as int % 16);
        assert(a[k - 1] == b[k - 1]);
        assert(a.take(k) =~= a.take(k - 1).push(a[k - 1]));
        assert(b.take(k) =~= b.take(k - 1).push(b[k - 1]));
    } else {
        assert(a.take(k) =~= b.take(k));
    }
}

proof fn digits_differ(m: int, n: int)
    requires
        0 <= m < 16,
        0 <= n < 16,
        hex_digit(m) == hex_digit(n),
    ensures
        m == n,
{
    assert(hex_digit(m) as int == if m < 10 {
        48 + m
    } else {
        87 + m
    });
    assert(hex_digit(n) as int == if n < 10 {
        48 + n
    } else {
        87 + n
    });
}

proof fn hex_length(a: Seq<u8>, k: int)
    requires
        0 <= k <= a.len(),
    ensures
        hex_of(a, k).len() == 2 * k,
    decreases k,
{
    if k > 0 {
        hex_length(a, k - 1);
    }
}

/// The name under which a part of a review is stored.
pub open spec fn stored_name(namespace: Seq<char>, key: Seq<char>) -> Seq<char> {
    let digest = sha256_of(encode_utf8(key));
    namespace + "-"@ + hex_of(digest, digest.len() as int)
}

/// The name under which a part of a review is stored: what it is, and the
/// digest of its key, so that any key gives a name that a file can have.
pub fn reference_name(namespace: &str, key: &str) -> (s: String)
    ensures
        s@ == stored_name(namespace@, key@),
{
    let digest = sha256(key.as_bytes());
    let mut s = namespace.to_owned();
    s.append("-");
    s.append(hex(&digest).as_str());
    s
}

/// A model of a cursor.
pub ghost struct Cursor {
    pub snapshot: Seq<char>,
    pub line: usize,
    pub byte: usize,
    pub file: usize,
}

/// What a text is read as, where a cursor of a snapshot is expected.
pub open spec fn decoded(value: Seq<char>, snapshot: Seq<char>) -> Result<Cursor, Seq<char>> {
    match base64_bytes(value) {
        None => Err("Invalid diff cursor"@),
        Some(bytes) => match cursor_values(bytes) {
            None => Err("Invalid diff cursor"@),
            Some((id, line, byte, file)) => if id != snapshot {
                Err("Diff cursor belongs to another snapshot"@)
            } else {
                Ok(Cursor { snapshot: id, line, byte, file })
            },
        },
    }
}

impl PageCursor {
    pub open spec fn model(self) -> Cursor {
        Cursor {
            snapshot: self.snapshot_id@,
            line: self.line_offset,
            byte: self.byte_offset,
            file: self.file_offset,
        }
    }

    /// Where the first page of a snapshot starts.
    pub fn first(snapshot_id: &str) -> (c: PageCursor)
        ensures
            c.model() == (Cursor { snapshot: snapshot_id@, line: 0, byte: 0, file: 0 }),
    {
        PageCursor {
            snapshot_id: snapshot_id.to_owned(),
            line_offset: 0,
            byte_offset: 0,
            file_offset: 0,
        }
    }

    /// Reads a cursor of a snapshot.
    pub fn decode(value: &str, snapshot_id: &str) -> (res: Result<PageCursor, String>)
        ensures
            match (res, decoded(value@, snapshot_id@)) {
                (Ok(c), Ok(m)) => c.model() == m,
                (Err(a), Err(b)) => a@ == b,
                _ => false,
            },
    {
        let bytes = match base64_decode(value) {
            Some(bytes) => bytes,
            None => {
                return Err("Invalid diff cursor".to_owned());
            },
        };
        let (id, line_offset, byte_offset, file_offset) = match read_cursor(bytes.as_slice()) {
            Some(values) => values,
            None => {
                return Err("Invalid diff cursor".to_owned());
            },
        };
        if !same_text(id.as_str(), snapshot_id) {
            return Err("Diff cursor belongs to another snapshot".to_owned());
        }
        Ok(PageCursor { snapshot_id: id, line_offset, byte_offset, file_offset })
    }

    /// Writes the cursor. What it writes is read back as the same cursor.
    pub fn encode(&self) -> (text: String)
        ensures
            text@ == base64_of(
                cursor_bytes(
                    self.snapshot_id@,
                    self.line_offset,
                    self.byte_offset,
                    self.file_offset,
                ),
            ),
            decoded(text@, self.snapshot_id@) == Ok::<Cursor, Seq<char>>(self.model()),
    {
        let json = write_cursor(
            self.snapshot_id.as_str(),
            self.line_offset,
            self.byte_offset,
            self.file_offset,
        );
        base64_encode(json.as_slice())
    }
}

/// The marker of a saved review in a JSON text: the member of an object, or
/// the marker of the text of the first item of an array that has one.
pub open spec fn marker_of(text: Seq<char>) -> Option<Seq<char>>
    decreases text.len(), 1int, 0int,
{
    match json_member_text(encode_utf8(text), "ovim_custom_diff_id"@) {
        Some(id) => Some(id),
        None => match json_item_texts(text, "text"@) {
            Some(items) => marker_among(text, items, 0),
            None => None,
        },
    }
}

/// The marker of the first item, from the `k`th on, that has one.
pub open spec fn marker_among(text: Seq<char>, items: Seq<Option<Seq<char>>>, k: int) -> Option<
    Seq<char>,
>
    decreases text.len(), 0int, items.len() - k,
{
    if k < 0 || k >= items.len() {
        None
    } else {
        let found = match items[k] {
            Some(inner) => if inner.len() < text.len() {
                marker_of(inner)
            } else {
                None
            },
            None => None,
        };
        match found {
            Some(id) => Some(id),
            None => marker_among(text, items, k + 1),
        }
    }
}

/// The first line feed of a text.
pub open spec fn first_break(t: Seq<char>, k: int) -> Option<int>
    decreases t.len() - k,
{
    if k < 0 || k >= t.len() {
        None
    } else if t[k] == '\n' {
        Some(k)
    } else {
        first_break(t, k + 1)
    }
}

/// A result without the line that names its target.
pub open spec fn result_body(content: Seq<char>) -> Seq<char> {
    let n = "Target: "@.len() as int;
    if crate::text::matches_at(content, 0, "Target: "@) && first_break(content, n) is Some {
        content.skip(first_break(content, n)->0 + 1)
    } else {
        content
    }
}

fn marker(text: &str) -> (res: Option<String>)
    ensures
        opt_view(res) == marker_of(text@),
    decreases text@.len(),
{
    if let Some(id) = member_text(text.as_bytes(), "ovim_custom_diff_id") {
        return Some(id);
    }
    let items = match item_texts(text, "text") {
        Some(items) => items,
        None => {
            return None;
        },
    };
    let ghost all = texts_view(items@);
    let mut k: usize = 0;
    while k < items.len()
        invariant
            k <= items.len(),
            all == texts_view(items@),
            json_member_text(encode_utf8(text@), "ovim_custom_diff_id"@) is None,
            json_item_texts(text@, "text"@) == Some(all),
            forall|i: int|
                0 <= i < items.len() ==> ((#[trigger] items@[i]) matches Some(t) ==> t@.len()
                    < text@.len()),
            marker_among(text@, all, k as int) == marker_among(text@, all, 0),
        decreases items.len() - k,
    {
        proof {
            assert(all[k as int] == opt_view(items@[k as int]));
        }
        if let Some(inner) = &items[k] {
            if let Some(id) = marker(inner.as_str()) {
                return Some(id);
            }
        }
        k += 1;
    }
    None
}

/// The id of the saved review that a tool's result speaks of, if it does.
pub fn custom_diff_replay_id(content: &str) -> (res: Option<String>)
    ensures
        opt_view(res) == marker_of(result_body(content@)),
{
    let cs = chars_of(content);
    proof {
        reveal_strlit("Target: ");
    }
    if starts_with(&cs, 0, "Target: ") {
        let mut k: usize = 8;
        while k < cs.len()
            invariant
                8 <= k,
                cs@ == content@,
                "Target: "@.len() == 8,
                crate::text::matches_at(content@, 0, "Target: "@),
                first_break(content@, k as int) == first_break(content@, 8),
            decreases cs.len() - k,
        {
            if cs[k] == '\n' {
                let body = slice_string(&cs, k + 1, cs.len());
                proof {
                    assert(body@ =~= result_body(content@));
                }
                return marker(body.as_str());
            }
            k += 1;
        }
    }
    marker(content)
}

/// A text with a line end in it.
pub open spec fn has_line_end(t: Seq<char>) -> bool {
    t.contains('\n') || t.contains('\r')
}

fn breaks_line(text: &str) -> (res: bool)
    ensures
        res == has_line_end(text@),
{
    let cs = chars_of(text);
    let mut k: usize = 0;
    while k < cs.len()
        invariant
            k <= cs.len(),
            cs@ == text@,
            forall|i: int| 0 <= i < k ==> cs@[i] != '\n' && cs@[i] != '\r',
        decreases cs.len() - k,
    {
        if cs[k] == '\n' || cs[k] == '\r' {
            proof {
                assert(text@[k as int] == '\n' || text@[k as int] == '\r');
            }
            return true;
        }
        k += 1;
    }
    false
}

/// Why a request for a rearranged review is refused before anything is stored.
pub open spec fn request_refused(title: Seq<char>, labels: Seq<Option<String>>, call: Seq<char>) -> Option<
    Seq<char>,
> {
    if trimmed(title).len() == 0 || has_line_end(title) {
        Some("title must be a nonblank single line"@)
    } else if exists|i: int|
        0 <= i < labels.len() && ((#[trigger] labels[i]) matches Some(l) && has_line_end(l@)) {
        Some("pairing labels must be single lines"@)
    } else if call.len() == 0 {
        Some("The tool call has no replay identity"@)
    } else {
        None
    }
}

/// Checks a request for a rearranged review: its title, the labels of its
/// sections, and the id of the call that it can be opened again by.
pub fn check_custom_diff(title: &str, labels: &Vec<Option<String>>, call_id: &str) -> (res: Result<
    (),
    String,
>)
    ensures
        match (res, request_refused(title@, labels@, call_id@)) {
            (Err(a), Some(b)) => a@ == b,
            (Ok(_), None) => true,
            _ => false,
        },
{
    if trim_text(title).as_str().unicode_len() == 0 || breaks_line(title) {
        return Err("title must be a nonblank single line".to_owned());
    }
    let mut k: usize = 0;
    while k < labels.len()
        invariant
            k <= labels.len(),
            !(trimmed(title@).len() == 0 || has_line_end(title@)),
            forall|i: int|
                0 <= i < k ==> !((#[trigger] labels@[i]) matches Some(l) && has_line_end(l@)),
        decreases labels.len() - k,
    {
        if let Some(label) = &labels[k] {
            if breaks_line(label.as_str()) {
                proof {
                    assert(labels@[k as int] matches Some(l) && has_line_end(l@));
                }
                return Err("pairing labels must be single lines".to_owned());
            }
        }
        k += 1;
    }
    if call_id.unicode_len() == 0 {
        return Err("The tool call has no replay identity".to_owned());
    }
    Ok(())
}

/// What a page of a comparison is asked for with.
#[derive(Debug)]
pub struct ReadDiffArgs {
    /// The comparison; the current one where none is named.
    pub snapshot_id: Option<String>,
    pub limit: Option<usize>,
    /// Where the page starts; at the beginning where nothing is said.
    pub cursor: Option<String>,
}

pub const UNKNOWN_SNAPSHOT: &'static str = "Stored review snapshot identity does not match the request";

pub const TRUNCATED_DIFF: &'static str = "The Git diff exceeds Ovim's complete patch limit; a custom review would omit changes. Reduce the working diff or adjust Ovim's pullbase, then call read_diff again.";

/// Where the page that was asked for starts, or why there is none.
pub open spec fn page_start(args: ReadDiffArgs, s: ReviewSnapshot) -> Result<Cursor, Seq<char>> {
    if args.cursor is Some && args.snapshot_id is None {
        Err("A diff cursor requires snapshot_id"@)
    } else if args.snapshot_id is Some && (args.snapshot_id->0)@ != s.id@ {
        Err(UNKNOWN_SNAPSHOT@)
    } else if args.snapshot_id is None && s.patch.truncated {
        Err(TRUNCATED_DIFF@)
    } else {
        match args.cursor {
            Some(cursor) => decoded(cursor@, s.id@),
            None => Ok(Cursor { snapshot: s.id@, line: 0, byte: 0, file: 0 }),
        }
    }
}

/// Checks a request for a page before any comparison is looked for: a cursor
/// belongs to a comparison that is named.
pub fn check_read_diff(args: &ReadDiffArgs) -> (res: Result<(), String>)
    ensures
        match res {
            Err(m) => args.cursor is Some && args.snapshot_id is None && m@
                == "A diff cursor requires snapshot_id"@,
            Ok(_) => !(args.cursor is Some && args.snapshot_id is None),
        },
{
    if args.cursor.is_some() && args.snapshot_id.is_none() {
        Err("A diff cursor requires snapshot_id".to_owned())
    } else {
        Ok(())
    }
}

fn find_start(args: &ReadDiffArgs, s: &ReviewSnapshot) -> (res: Result<PageCursor, String>)
    ensures
        match (res, page_start(*args, *s)) {
            (Ok(c), Ok(m)) => c.model() == m,
            (Err(a), Err(b)) => a@ == b,
            _ => false,
        },
{
    if let Err(message) = check_read_diff(args) {
        return Err(message);
    }
    match &args.snapshot_id {
        None => {
            if s.patch.truncated {
                return Err(TRUNCATED_DIFF.to_owned());
            }
        },
        Some(id) => {
            if !same_text(id.as_str(), s.id.as_str()) {
                return Err(UNKNOWN_SNAPSHOT.to_owned());
            }
        },
    }
    match &args.cursor {
        Some(cursor) => PageCursor::decode(cursor.as_str(), s.id.as_str()),
        None => Ok(PageCursor::first(s.id.as_str())),
    }
}

/// A page is the one that was asked for.
pub open spec fn answered(
    args: ReadDiffArgs,
    s: ReviewSnapshot,
    sizes: Seq<usize>,
    page: DiffPage,
) -> bool {
    &&& page_start(args, s) matches Ok(c) && ({
        let g = page_at(s, c.line as int, c.byte as int, page_limit(args.limit));
        g.shown.error is None && exists|cursor: PageCursor|
            cursor.model() == c && #[trigger] is_page(page, s, cursor, g, sizes)
    })
}

/// The page of a comparison that was asked for, given the comparison and the
/// sizes of the summaries of its files.
pub fn read_diff(args: &ReadDiffArgs, s: &ReviewSnapshot, sizes: &Vec<usize>) -> (res: Result<
    DiffPage,
    String,
>)
    requires
        snapshot_ok(*s),
    ensures
        match page_start(*args, *s) {
            Err(message) => res matches Err(m) && m@ == message,
            Ok(c) => {
                let g = page_at(*s, c.line as int, c.byte as int, page_limit(args.limit));
                match res {
                    Err(m) => g.shown.error is Some && m@ == (g.shown.error->0).text(),
                    Ok(page) => answered(*args, *s, sizes@, page),
                }
            },
        },
{
    let cursor = match find_start(args, s) {
        Ok(cursor) => cursor,
        Err(message) => {
            return Err(message);
        },
    };
    match diff_page(s, &cursor, args.limit, sizes) {
        Ok(page) => Ok(page),
        Err(e) => Err(e.message().to_owned()),
    }
}

/// What a rearranged review is asked for with.
#[derive(Debug)]
pub struct ShowCustomDiffArgs {
    pub snapshot_id: String,
    pub title: String,
    /// The labels of the sections
    pub labels: Vec<Option<String>>,
    /// What each section takes
    pub sections: Vec<SectionSides>,
}

/// The answer to a request for a rearranged review that is shown. It holds the
/// marker that the review can be opened again by.
pub open spec fn shown_answer(args: ShowCustomDiffArgs, call: Seq<char>) -> Js {
    Js::Object(
        seq![
            ("title"@, Js::Text(args.title@)),
            ("snapshot_id"@, Js::Text(args.snapshot_id@)),
            ("sections"@, Js::Number(digits(args.sections@.len()))),
            (
                "pairings"@,
                Js::Number(digits(pairs_in(args.sections@, args.sections@.len() as int))),
            ),
            ("ovim_custom_diff_id"@, Js::Text(call)),
            ("opened"@, Js::Bool(true)),
        ],
    )
}

/// Answers a request for a rearranged review, given the id of the comparison
/// that is stored and how saving and opening the review went.
pub fn show_custom_diff(
    args: &ShowCustomDiffArgs,
    call_id: &str,
    stored_id: &str,
    opened: Result<(), String>,
) -> (res: Result<Json, String>)
    ensures
        match request_refused(args.title@, args.labels@, call_id@) {
            Some(message) => res matches Err(m) && m@ == message,
            None => if stored_id@ != args.snapshot_id@ {
                res matches Err(m) && m@ == UNKNOWN_SNAPSHOT@
            } else {
                match opened {
                    Err(error) => res matches Err(m) && m@ == error@,
                    Ok(_) => res matches Ok(v) && v.model() == shown_answer(*args, call_id@),
                }
            },
        },
{
    if let Err(message) = check_custom_diff(args.title.as_str(), &args.labels, call_id) {
        return Err(message);
    }
    if !same_text(stored_id, args.snapshot_id.as_str()) {
        return Err(UNKNOWN_SNAPSHOT.to_owned());
    }
    if let Err(error) = opened {
        return Err(error);
    }
    let pairs: usize = count_pairs(&args.sections);
    let mut fields = no_fields();
    put(&mut fields, "title", text(args.title.as_str()));
    put(&mut fields, "snapshot_id", text(args.snapshot_id.as_str()));
    put(&mut fields, "sections", number(decimal(args.sections.len() as u64).as_str()));
    put(&mut fields, "pairings", number(decimal(pairs as u64).as_str()));
    put(&mut fields, "ovim_custom_diff_id", text(call_id));
    put(&mut fields, "opened", Json::Bool(true));
    let v = object(fields);
    proof {
        assert(Json::Bool(true).model() == Js::Bool(true));
        assert(v.model()->Object_0 =~= shown_answer(*args, call_id@)->Object_0);
    }
    Ok(v)
}

/// Whether the stored review is to be found under another id too: the id of
/// the call differs from the one that the result speaks of. An error where the
/// result speaks of none.
pub fn alias_to_bind(tool_id: &str, content: &str) -> (res: Result<Option<String>, String>)
    ensures
        match (res, marker_of(result_body(content@))) {
            (Err(m), None) => m@ == "Custom diff result has no replay marker"@,
            (Ok(Some(id)), Some(m)) => id@ == m && m != tool_id@,
            (Ok(None), Some(m)) => m == tool_id@,
            _ => false,
        },
{
    match custom_diff_replay_id(content) {
        None => Err("Custom diff result has no replay marker".to_owned()),
        Some(id) => if same_text(id.as_str(), tool_id) {
            Ok(None)
        } else {
            Ok(Some(id))
        },
    }
}

/// What a section of a rearranged review takes: removed lines, added lines, or
/// both.
#[derive(Debug, Clone, Copy, PartialEq, Eq, Structural)]
pub struct SectionSides {
    pub old: bool,
    pub new: bool,
}

/// How many of the first `k` sections take both.
pub open spec fn pairs_in(sections: Seq<SectionSides>, k: int) -> nat
    decreases k,
{
    if k <= 0 || k > sections.len() {
        0
    } else {
        pairs_in(sections, k - 1) + if sections[k - 1].old && sections[k - 1].new {
            1nat
        } else {
            0nat
        }
    }
}

/// How many sections take removed and added lines.
pub fn count_pairs(sections: &Vec<SectionSides>) -> (n: usize)
    ensures
        n == pairs_in(sections@, sections.len() as int),
{
    let mut n: usize = 0;
    let mut k: usize = 0;
    while k < sections.len()
        invariant
            k <= sections.len(),
            n <= k,
            n == pairs_in(sections@, k as int),
        decreases sections.len() - k,
    {
        if sections[k].old && sections[k].new {
            n += 1;
        }
        k += 1;
    }
    n
}

} // verus!
