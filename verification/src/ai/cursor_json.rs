//! How a page cursor is written: a JSON object with four members, in any order
//! and among others, or a JSON array of the four values.
//!
//! An object is read member by member, so that a member that comes twice is
//! seen. The strings, the numbers and the values that are passed over are read
//! by `serde_json`.
use crate::fmt::digits;
use crate::text::same_text;
use vstd::prelude::*;
use vstd::slice::slice_subrange;
use vstd::utf8::encode_utf8;

verus! {

pub const QUOTE: u8 = 34;

pub const COMMA: u8 = 44;

pub const COLON: u8 = 58;

pub const OPEN_LIST: u8 = 91;

pub const OPEN: u8 = 123;

pub const CLOSE: u8 = 125;

/// The JSON string at the start of bytes, behind blanks, and where it ends.
pub uninterp spec fn json_string_at(bytes: Seq<u8>) -> Option<(Seq<char>, usize)>;

/// The natural number at the start of bytes, behind blanks, and where it ends.
pub uninterp spec fn json_number_at(bytes: Seq<u8>) -> Option<(usize, usize)>;

/// Where the JSON value at the start of bytes, behind blanks, ends.
pub uninterp spec fn json_value_end(bytes: Seq<u8>) -> Option<usize>;

/// The values of a JSON array of a string and three natural numbers.
pub uninterp spec fn json_cursor_list(bytes: Seq<u8>) -> Option<(Seq<char>, usize, usize, usize)>;

/// A text as a JSON string.
pub uninterp spec fn json_quoted(text: Seq<char>) -> Seq<char>;

/// `StreamDeserializer::next` of `serde_json` for a `String`, and
/// `byte_offset`: the string that the bytes start with, and where it ends,
/// inside the bytes.
#[verifier::external_body]
fn string_at(bytes: &[u8]) -> (res: Option<(String, usize)>)
    ensures
        match (res, json_string_at(bytes@)) {
            (Some(a), Some(b)) => (a.0@, a.1) == b && 0 < a.1 <= bytes@.len(),
            (None, None) => true,
            _ => false,
        },
{
    let mut values = serde_json::Deserializer::from_slice(bytes).into_iter::<String>();
    let value = values.next()?.ok()?;
    Some((value, values.byte_offset()))
}

/// `StreamDeserializer::next` of `serde_json` for a `usize`, and
/// `byte_offset`: the number that the bytes start with, and where it ends,
/// inside the bytes.
#[verifier::external_body]
fn number_at(bytes: &[u8]) -> (res: Option<(usize, usize)>)
    ensures
        res == json_number_at(bytes@),
        res matches Some(a) ==> 0 < a.1 <= bytes@.len(),
{
    let mut values = serde_json::Deserializer::from_slice(bytes).into_iter::<usize>();
    let value = values.next()?.ok()?;
    Some((value, values.byte_offset()))
}

/// `StreamDeserializer::next` of `serde_json` for `serde::de::IgnoredAny`, and
/// `byte_offset`: where the value that the bytes start with ends, inside the
/// bytes.
#[verifier::external_body]
fn value_end(bytes: &[u8]) -> (res: Option<usize>)
    ensures
        res == json_value_end(bytes@),
        res matches Some(end) ==> 0 < end <= bytes@.len(),
{
    let values = serde_json::Deserializer::from_slice(bytes);
    let mut values = values.into_iter::<serde::de::IgnoredAny>();
    let _ = values.next()?.ok()?;
    Some(values.byte_offset())
}

/// `serde_json::from_slice` of a tuple of a string and three numbers, which is
/// an array of just these.
#[verifier::external_body]
fn cursor_list(bytes: &[u8]) -> (res: Option<(String, usize, usize, usize)>)
    ensures
        match (res, json_cursor_list(bytes@)) {
            (Some(a), Some(b)) => (a.0@, a.1, a.2, a.3) == b,
            (None, None) => true,
            _ => false,
        },
{
    serde_json::from_slice(bytes).ok()
}

/// `serde_json::to_string` of a text: the JSON string that the name stands
/// for, which starts with a quotation mark. `StreamDeserializer::next` reads
/// it back, whatever follows it.
#[verifier::external_body]
pub(crate) fn json_quote(text: &str) -> (quoted: String)
    ensures
        quoted@ == json_quoted(text@),
        encode_utf8(quoted@).len() > 0,
        encode_utf8(quoted@)[0] == QUOTE,
        forall|rest: Seq<u8>|
            #[trigger] json_string_at(encode_utf8(quoted@) + rest) == Some(
                (text@, encode_utf8(quoted@).len() as usize),
            ),
        encode_utf8(quoted@).len() <= usize::MAX,
{
    serde_json::to_string(text).expect("text serializes")
}

/// `serde_json::to_string` of a number: its digits. `StreamDeserializer::next`
/// reads them back where a comma or a closing brace follows.
#[verifier::external_body]
fn json_number(n: usize) -> (text: String)
    ensures
        text@ == digits(n as nat),
        0 < encode_utf8(text@).len() <= usize::MAX,
        forall|rest: Seq<u8>|
            rest.len() > 0 && (rest[0] == COMMA || rest[0] == CLOSE)
                ==> #[trigger] json_number_at(encode_utf8(text@) + rest) == Some(
                (n, encode_utf8(text@).len() as usize),
            ),
{
    serde_json::to_string(&n).expect("number serializes")
}

/// The blanks of JSON.
pub open spec fn json_blank(b: u8) -> bool {
    b == 32 || b == 10 || b == 9 || b == 13
}

/// The first byte at or behind `i` that is no blank.
pub open spec fn past_blanks(b: Seq<u8>, i: int) -> int
    decreases b.len() - i,
{
    if 0 <= i < b.len() && json_blank(b[i]) {
        past_blanks(b, i + 1)
    } else {
        i
    }
}

/// The members of a cursor that were read so far.
pub ghost struct Fields {
    pub id: Option<Seq<char>>,
    pub line: Option<usize>,
    pub byte: Option<usize>,
    pub file: Option<usize>,
}

/// The members with one more, and where its value ends. A member that was read
/// already, or one whose value is of another type, spoils the cursor; one that
/// cursors do not have is passed over.
pub open spec fn with_member(f: Fields, key: Seq<char>, rest: Seq<u8>) -> Option<(Fields, usize)> {
    if key == "snapshot_id"@ {
        match json_string_at(rest) {
            Some((id, end)) if f.id is None => Some((Fields { id: Some(id), ..f }, end)),
            _ => None,
        }
    } else if key == "line_offset"@ {
        match json_number_at(rest) {
            Some((n, end)) if f.line is None => Some((Fields { line: Some(n), ..f }, end)),
            _ => None,
        }
    } else if key == "byte_offset"@ {
        match json_number_at(rest) {
            Some((n, end)) if f.byte is None => Some((Fields { byte: Some(n), ..f }, end)),
            _ => None,
        }
    } else if key == "file_offset"@ {
        match json_number_at(rest) {
            Some((n, end)) if f.file is None => Some((Fields { file: Some(n), ..f }, end)),
            _ => None,
        }
    } else {
        match json_value_end(rest) {
            Some(end) => Some((f, end)),
            None => None,
        }
    }
}

/// Where the key of the next member starts, `i` being where a member ended or,
/// for the first, where the object opened.
pub open spec fn key_start(b: Seq<u8>, i: int, first: bool) -> Option<int> {
    let j = past_blanks(b, i);
    let k = if first {
        j
    } else {
        past_blanks(b, j + 1)
    };
    if 0 <= j < b.len() && (first || b[j] == COMMA) && 0 <= k < b.len() && b[k] == QUOTE {
        Some(k)
    } else {
        None
    }
}

/// The members of an object from `i` on, and where the object ends.
pub open spec fn members(b: Seq<u8>, i: int, first: bool, f: Fields) -> Option<(Fields, int)>
    decreases b.len() - i,
{
    let j = past_blanks(b, i);
    if 0 <= j < b.len() && b[j] == CLOSE {
        Some((f, j + 1))
    } else {
        match key_start(b, i, first) {
            None => None,
            Some(k) => match json_string_at(b.skip(k)) {
                None => None,
                Some((key, len)) => {
                    let c = past_blanks(b, k + len);
                    if 0 <= c < b.len() && b[c] == COLON {
                        match with_member(f, key, b.skip(c + 1)) {
                            None => None,
                            Some((g, end)) => if i < c + 1 + end <= b.len() {
                                members(b, c + 1 + end, false, g)
                            } else {
                                None
                            },
                        }
                    } else {
                        None
                    }
                },
            },
        }
    }
}

/// The fields of a cursor that bytes are, if they are one.
pub open spec fn cursor_values(b: Seq<u8>) -> Option<(Seq<char>, usize, usize, usize)> {
    let i = past_blanks(b, 0);
    if i >= b.len() {
        None
    } else if b[i] == OPEN_LIST {
        json_cursor_list(b)
    } else if b[i] == OPEN {
        match members(b, i + 1, true, Fields { id: None, line: None, byte: None, file: None }) {
            None => None,
            Some((f, end)) => match (f.id, f.line, f.byte, f.file) {
                (Some(id), Some(line), Some(byte), Some(file)) if past_blanks(b, end) >= b.len() =>
                    Some((id, line, byte, file)),
                _ => None,
            },
        }
    } else {
        None
    }
}

proof fn past_blanks_is(b: Seq<u8>, i: int)
    requires
        0 <= i <= b.len(),
    ensures
        i <= past_blanks(b, i) <= b.len(),
    decreases b.len() - i,
{
    if i < b.len() && json_blank(b[i]) {
        past_blanks_is(b, i + 1);
    }
}

fn skip_blanks(b: &[u8], from: usize) -> (i: usize)
    requires
        from <= b@.len(),
    ensures
        i == past_blanks(b@, from as int),
        from <= i <= b@.len(),
{
    let mut i: usize = from;
    while i < b.len() && (b[i] == 32 || b[i] == 10 || b[i] == 9 || b[i] == 13)
        invariant
            from <= i <= b@.len(),
            past_blanks(b@, i as int) == past_blanks(b@, from as int),
        decreases b@.len() - i,
    {
        i += 1;
    }
    i
}

/// The members of a cursor that were read so far.
struct FieldsRead {
    id: Option<String>,
    line: Option<usize>,
    byte: Option<usize>,
    file: Option<usize>,
}

impl FieldsRead {
    spec fn model(self) -> Fields {
        Fields {
            id: crate::fmt::opt_view(self.id),
            line: self.line,
            byte: self.byte,
            file: self.file,
        }
    }
}

/// Reads the value of a member; where it ends, or none where it spoils the
/// cursor.
fn read_member(f: &mut FieldsRead, key: &str, rest: &[u8]) -> (res: Option<usize>)
    ensures
        match (res, with_member(old(f).model(), key@, rest@)) {
            (Some(end), Some((g, n))) => end == n && final(f).model() == g && 0 < end
                <= rest@.len(),
            (None, None) => true,
            _ => false,
        },
{
    if same_text(key, "snapshot_id") {
        match string_at(rest) {
            Some((id, end)) => {
                if f.id.is_some() {
                    return None;
                }
                f.id = Some(id);
                Some(end)
            },
            None => None,
        }
    } else {
        let line = same_text(key, "line_offset");
        let byte = same_text(key, "byte_offset");
        let file = same_text(key, "file_offset");
        if !line && !byte && !file {
            return value_end(rest);
        }
        let (n, end) = match number_at(rest) {
            Some(read) => read,
            None => {
                return None;
            },
        };
        if line {
            if f.line.is_some() {
                return None;
            }
            f.line = Some(n);
        } else if byte {
            if f.byte.is_some() {
                return None;
            }
            f.byte = Some(n);
        } else {
            if f.file.is_some() {
                return None;
            }
            f.file = Some(n);
        }
        Some(end)
    }
}

/// Where the key of the next member starts.
fn find_key(b: &[u8], i: usize, first: bool) -> (res: Option<usize>)
    requires
        i <= b@.len(),
    ensures
        match (res, key_start(b@, i as int, first)) {
            (Some(k), Some(m)) => k == m && i <= k < b@.len(),
            (None, None) => true,
            _ => false,
        },
{
    let j: usize = skip_blanks(b, i);
    if j >= b.len() {
        return None;
    }
    let k: usize = if first {
        j
    } else {
        if b[j] != COMMA {
            return None;
        }
        skip_blanks(b, j + 1)
    };
    if k < b.len() && b[k] == QUOTE {
        Some(k)
    } else {
        None
    }
}

/// Reads the members of an object from `start` on; what they are, and where
/// the object ends.
fn read_members(b: &[u8], start: usize) -> (res: Option<(FieldsRead, usize)>)
    requires
        start <= b@.len(),
    ensures
        match (
            res,
            members(
                b@,
                start as int,
                true,
                Fields { id: None, line: None, byte: None, file: None },
            ),
        ) {
            (Some(a), Some((f, end))) => a.0.model() == f && a.1 == end && a.1 <= b@.len(),
            (None, None) => true,
            _ => false,
        },
{
    let ghost goal = members(
        b@,
        start as int,
        true,
        Fields { id: None, line: None, byte: None, file: None },
    );
    let mut f = FieldsRead { id: None, line: None, byte: None, file: None };
    let mut i: usize = start;
    let mut first = true;
    loop
        invariant
            i <= b@.len(),
            members(b@, i as int, first, f.model()) == goal,
            goal == members(
                b@,
                start as int,
                true,
                Fields { id: None, line: None, byte: None, file: None },
            ),
        decreases b@.len() - i,
    {
        let j: usize = skip_blanks(b, i);
        if j < b.len() && b[j] == CLOSE {
            return Some((f, j + 1));
        }
        let k: usize = match find_key(b, i, first) {
            Some(k) => k,
            None => {
                return None;
            },
        };
        proof {
            assert(b@.subrange(k as int, b@.len() as int) =~= b@.skip(k as int));
        }
        let (key, len) = match string_at(slice_subrange(b, k, b.len())) {
            Some(read) => read,
            None => {
                return None;
            },
        };
        let c: usize = skip_blanks(b, k + len);
        if c >= b.len() || b[c] != COLON {
            return None;
        }
        proof {
            assert(b@.subrange(c + 1, b@.len() as int) =~= b@.skip(c + 1));
        }
        let end: usize = match read_member(
            &mut f,
            key.as_str(),
            slice_subrange(b, c + 1, b.len()),
        ) {
            Some(end) => end,
            None => {
                return None;
            },
        };
        i = c + 1 + end;
        first = false;
    }
}

/// Reads a cursor.
pub(crate) fn read_cursor(b: &[u8]) -> (res: Option<(String, usize, usize, usize)>)
    ensures
        match (res, cursor_values(b@)) {
            (Some(a), Some(m)) => (a.0@, a.1, a.2, a.3) == m,
            (None, None) => true,
            _ => false,
        },
{
    let i: usize = skip_blanks(b, 0);
    if i >= b.len() {
        return None;
    }
    if b[i] == OPEN_LIST {
        return cursor_list(b);
    }
    if b[i] != OPEN {
        return None;
    }
    match read_members(b, i + 1) {
        None => None,
        Some((f, end)) => {
            let rest: usize = skip_blanks(b, end);
            match (f.id, f.line, f.byte, f.file) {
                (Some(id), Some(line), Some(byte), Some(file)) => if rest >= b.len() {
                    Some((id, line, byte, file))
                } else {
                    None
                },
                _ => None,
            }
        },
    }
}

/// The bytes of a JSON string.
pub open spec fn quoted_bytes(text: Seq<char>) -> Seq<u8> {
    encode_utf8(json_quoted(text))
}

/// The bytes of a number.
pub open spec fn number_bytes(n: usize) -> Seq<u8> {
    encode_utf8(digits(n as nat))
}

/// A member of an object: its key, a colon and its value.
pub open spec fn member_bytes(key: Seq<char>, value: Seq<u8>) -> Seq<u8> {
    quoted_bytes(key) + seq![COLON] + value
}

/// A cursor as a JSON object.
pub open spec fn cursor_bytes(id: Seq<char>, line: usize, byte: usize, file: usize) -> Seq<u8> {
    seq![OPEN] + member_bytes("snapshot_id"@, quoted_bytes(id)) + seq![COMMA] + member_bytes(
        "line_offset"@,
        number_bytes(line),
    ) + seq![COMMA] + member_bytes("byte_offset"@, number_bytes(byte)) + seq![COMMA]
        + member_bytes("file_offset"@, number_bytes(file)) + seq![CLOSE]
}

/// A text is read back from its JSON string, whatever follows.
spec fn reads_back(text: Seq<char>) -> bool {
    let q = quoted_bytes(text);
    &&& 0 < q.len() <= usize::MAX
    &&& q[0] == QUOTE
    &&& forall|rest: Seq<u8>|
        #[trigger] json_string_at(q + rest) == Some((text, q.len() as usize))
}

/// A number is read back where a comma or a closing brace follows.
spec fn number_reads_back(n: usize) -> bool {
    let v = number_bytes(n);
    &&& 0 < v.len() <= usize::MAX
    &&& forall|rest: Seq<u8>|
        rest.len() > 0 && (rest[0] == COMMA || rest[0] == CLOSE) ==> #[trigger] json_number_at(
            v + rest,
        ) == Some((n, v.len() as usize))
}

/// One member more is read.
proof fn member_is_read(
    b: Seq<u8>,
    i: int,
    first: bool,
    f: Fields,
    key: Seq<char>,
    v: Seq<u8>,
    tail: Seq<u8>,
    g: Fields,
)
    requires
        0 <= i < b.len(),
        !first ==> b[i] == COMMA,
        reads_back(key),
        b.skip(
            if first {
                i
            } else {
                i + 1
            },
        ) == member_bytes(key, v) + tail,
        0 < v.len(),
        with_member(f, key, v + tail) == Some((g, v.len() as usize)),
        v.len() <= usize::MAX,
    ensures
        ({
            let next = b.len() - tail.len();
            &&& i < next <= b.len()
            &&& members(b, i, first, f) == members(b, next, false, g)
            &&& b.skip(next) == tail
        }),
{
    let q = quoted_bytes(key);
    let k = if first {
        i
    } else {
        i + 1
    };
    let rest = b.skip(k);
    let all = member_bytes(key, v) + tail;
    assert(rest.len() == b.len() - k) by {
        if k > b.len() {
            assert(all.len() > 0);
        }
    }
    assert(all =~= q + (seq![COLON] + v + tail));
    assert(all[0] == q[0]);
    assert(b[k] == rest[0]);
    assert(past_blanks(b, i) == i);
    assert(past_blanks(b, k) == k);
    assert(key_start(b, i, first) == Some(k));
    assert(json_string_at(b.skip(k)) == Some((key, q.len() as usize)));
    let c = k + q.len();
    assert(all[q.len() as int] == COLON);
    assert(b[c] == rest[q.len() as int]);
    assert(past_blanks(b, c) == c);
    assert(b.skip(c + 1) =~= v + tail) by {
        assert forall|x: int| 0 <= x < (v + tail).len() implies b.skip(c + 1)[x] == (v + tail)[x] by {
            assert(rest[q.len() + 1 + x] == all[q.len() + 1 + x]);
        }
    }
    let next = c + 1 + v.len();
    assert(next == b.len() - tail.len());
    assert(b.skip(next) =~= tail) by {
        assert forall|x: int| 0 <= x < tail.len() implies b.skip(next)[x] == tail[x] by {
            assert(rest[q.len() + 1 + v.len() + x] == all[q.len() + 1 + v.len() + x]);
        }
    }
}

/// One member more is read behind a comma.
proof fn next_member_is_read(
    b: Seq<u8>,
    i: int,
    f: Fields,
    key: Seq<char>,
    v: Seq<u8>,
    tail: Seq<u8>,
    g: Fields,
)
    requires
        0 <= i < b.len(),
        reads_back(key),
        b.skip(i) == seq![COMMA] + (member_bytes(key, v) + tail),
        0 < v.len() <= usize::MAX,
        with_member(f, key, v + tail) == Some((g, v.len() as usize)),
    ensures
        ({
            let next = b.len() - tail.len();
            &&& i < next <= b.len()
            &&& members(b, i, false, f) == members(b, next, false, g)
            &&& b.skip(next) == tail
        }),
{
    let all = seq![COMMA] + (member_bytes(key, v) + tail);
    assert(b[i] == b.skip(i)[0]);
    assert(all[0] == COMMA);
    assert(all.skip(1) =~= member_bytes(key, v) + tail);
    assert(b.skip(i).skip(1) =~= b.skip(i + 1));
    member_is_read(b, i, false, f, key, v, tail, g);
}

proof fn keys_differ()
    ensures
        "snapshot_id"@ != "line_offset"@,
        "snapshot_id"@ != "byte_offset"@,
        "snapshot_id"@ != "file_offset"@,
        "line_offset"@ != "byte_offset"@,
        "line_offset"@ != "file_offset"@,
        "byte_offset"@ != "file_offset"@,
{
    reveal_strlit("snapshot_id");
    reveal_strlit("line_offset");
    reveal_strlit("byte_offset");
    reveal_strlit("file_offset");
    assert("snapshot_id"@[0] == 's');
    assert("line_offset"@[0] == 'l');
    assert("byte_offset"@[0] == 'b');
    assert("file_offset"@[0] == 'f');
}

/// The members of a cursor behind its first.
proof fn numbers_are_read(
    b: Seq<u8>,
    i: int,
    f: Fields,
    line: usize,
    byte: usize,
    file: usize,
    t1: Seq<u8>,
    t2: Seq<u8>,
    t3: Seq<u8>,
)
    requires
        0 <= i < b.len(),
        f.line is None && f.byte is None && f.file is None,
        reads_back("line_offset"@),
        reads_back("byte_offset"@),
        reads_back("file_offset"@),
        number_reads_back(line),
        number_reads_back(byte),
        number_reads_back(file),
        b.skip(i) == t1,
        t1 == seq![COMMA] + (member_bytes("line_offset"@, number_bytes(line)) + t2),
        t2 == seq![COMMA] + (member_bytes("byte_offset"@, number_bytes(byte)) + t3),
        t3 == seq![COMMA] + (member_bytes("file_offset"@, number_bytes(file)) + seq![CLOSE]),
    ensures
        members(b, i, false, f) == Some(
            (
                Fields { line: Some(line), byte: Some(byte), file: Some(file), ..f },
                b.len() as int,
            ),
        ),
{
    keys_differ();
    let f2 = Fields { line: Some(line), ..f };
    let f3 = Fields { byte: Some(byte), ..f2 };
    let f4 = Fields { file: Some(file), ..f3 };
    let t4 = seq![CLOSE];
    assert(t2.len() > 0 && t2[0] == COMMA);
    assert(t3.len() > 0 && t3[0] == COMMA);
    assert(json_number_at(number_bytes(line) + t2) == Some(
        (line, number_bytes(line).len() as usize),
    ));
    assert(json_number_at(number_bytes(byte) + t3) == Some(
        (byte, number_bytes(byte).len() as usize),
    ));
    assert(json_number_at(number_bytes(file) + t4) == Some(
        (file, number_bytes(file).len() as usize),
    ));
    next_member_is_read(b, i, f, "line_offset"@, number_bytes(line), t2, f2);
    let i2 = b.len() - t2.len();
    next_member_is_read(b, i2, f2, "byte_offset"@, number_bytes(byte), t3, f3);
    let i3 = b.len() - t3.len();
    next_member_is_read(b, i3, f3, "file_offset"@, number_bytes(file), t4, f4);
    let i4 = b.len() - 1;
    assert(b[i4] == b.skip(i4)[0]);
    assert(past_blanks(b, i4) == i4);
}

/// A cursor that was written is read back.
proof fn cursor_is_read_back(id: Seq<char>, line: usize, byte: usize, file: usize)
    requires
        reads_back(id),
        reads_back("snapshot_id"@),
        reads_back("line_offset"@),
        reads_back("byte_offset"@),
        reads_back("file_offset"@),
        number_reads_back(line),
        number_reads_back(byte),
        number_reads_back(file),
    ensures
        cursor_values(cursor_bytes(id, line, byte, file)) == Some((id, line, byte, file)),
{
    let b = cursor_bytes(id, line, byte, file);
    let t3 = seq![COMMA] + (member_bytes("file_offset"@, number_bytes(file)) + seq![CLOSE]);
    let t2 = seq![COMMA] + (member_bytes("byte_offset"@, number_bytes(byte)) + t3);
    let t1 = seq![COMMA] + (member_bytes("line_offset"@, number_bytes(line)) + t2);
    let m1 = member_bytes("snapshot_id"@, quoted_bytes(id));
    cursor_splits(id, line, byte, file);
    assert(b[0] == OPEN);
    assert(past_blanks(b, 0) == 0);
    assert(b.skip(1) =~= m1 + t1);
    let f0 = Fields { id: None, line: None, byte: None, file: None };
    let f1 = Fields { id: Some(id), ..f0 };
    member_is_read(b, 1, true, f0, "snapshot_id"@, quoted_bytes(id), t1, f1);
    numbers_are_read(b, b.len() - t1.len(), f1, line, byte, file, t1, t2, t3);
}

proof fn cursor_splits(id: Seq<char>, line: usize, byte: usize, file: usize)
    ensures
        ({
            let t3 = seq![COMMA] + (member_bytes("file_offset"@, number_bytes(file)) + seq![
                CLOSE,
            ]);
            let t2 = seq![COMMA] + (member_bytes("byte_offset"@, number_bytes(byte)) + t3);
            let t1 = seq![COMMA] + (member_bytes("line_offset"@, number_bytes(line)) + t2);
            cursor_bytes(id, line, byte, file) == seq![OPEN] + (member_bytes(
                "snapshot_id"@,
                quoted_bytes(id),
            ) + t1)
        }),
{
    let m1 = member_bytes("snapshot_id"@, quoted_bytes(id));
    let m2 = member_bytes("line_offset"@, number_bytes(line));
    let m3 = member_bytes("byte_offset"@, number_bytes(byte));
    let m4 = member_bytes("file_offset"@, number_bytes(file));
    sums_agree(m1, m2, m3, m4);
}

proof fn sums_agree(m1: Seq<u8>, m2: Seq<u8>, m3: Seq<u8>, m4: Seq<u8>)
    ensures
        seq![OPEN] + m1 + seq![COMMA] + m2 + seq![COMMA] + m3 + seq![COMMA] + m4 + seq![CLOSE]
            == seq![OPEN] + (m1 + (seq![COMMA] + (m2 + (seq![COMMA] + (m3 + (seq![COMMA] + (m4
            + seq![CLOSE]))))))),
{
    assert(seq![OPEN] + m1 + seq![COMMA] + m2 + seq![COMMA] + m3 + seq![COMMA] + m4 + seq![CLOSE]
        =~= seq![OPEN] + (m1 + (seq![COMMA] + (m2 + (seq![COMMA] + (m3 + (seq![COMMA] + (m4
        + seq![CLOSE]))))))));
}

fn append(out: &mut Vec<u8>, bytes: &[u8])
    ensures
        final(out)@ == old(out)@ + bytes@,
{
    let mut k: usize = 0;
    proof {
        assert(out@ =~= old(out)@ + bytes@.take(0));
    }
    while k < bytes.len()
        invariant
            k <= bytes@.len(),
            out@ == old(out)@ + bytes@.take(k as int),
        decreases bytes@.len() - k,
    {
        out.push(bytes[k]);
        k += 1;
        proof {
            assert(out@ =~= old(out)@ + bytes@.take(k as int));
        }
    }
    proof {
        assert(bytes@.take(k as int) =~= bytes@);
    }
}

fn write_member(out: &mut Vec<u8>, key: &str, value: &str)
    ensures
        final(out)@ == old(out)@ + member_bytes(key@, encode_utf8(value@)),
        reads_back(key@),
{
    let quoted = json_quote(key);
    append(out, quoted.as_str().as_bytes());
    out.push(COLON);
    append(out, value.as_bytes());
    proof {
        assert(out@ =~= old(out)@ + member_bytes(key@, encode_utf8(value@)));
    }
}

/// Writes a cursor. What it writes is read back.
pub(crate) fn write_cursor(id: &str, line: usize, byte: usize, file: usize) -> (out: Vec<u8>)
    ensures
        out@ == cursor_bytes(id@, line, byte, file),
        cursor_values(out@) == Some((id@, line, byte, file)),
{
    let quoted = json_quote(id);
    let line_text = json_number(line);
    let byte_text = json_number(byte);
    let file_text = json_number(file);
    let mut out: Vec<u8> = Vec::new();
    out.push(OPEN);
    write_member(&mut out, "snapshot_id", quoted.as_str());
    out.push(COMMA);
    write_member(&mut out, "line_offset", line_text.as_str());
    out.push(COMMA);
    write_member(&mut out, "byte_offset", byte_text.as_str());
    out.push(COMMA);
    write_member(&mut out, "file_offset", file_text.as_str());
    out.push(CLOSE);
    proof {
        assert(out@ =~= cursor_bytes(id@, line, byte, file));
        cursor_is_read_back(id@, line, byte, file);
    }
    out
}

} // verus!
