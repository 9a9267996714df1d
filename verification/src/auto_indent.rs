//! Structural indentation planning.
//!
//! Two concerns are kept apart: [`IndentOptions`](crate::indentation::IndentOptions)
//! decides how a visual column is encoded as tabs and spaces, and this module
//! decides which visual column a line belongs at.
//!
//! The structural pass is conservative. It understands paired delimiters and
//! the comment and string syntax of the built-in languages; delimiters inside
//! comments and literals never affect surrounding lines.
use crate::buffer::Buffer;
use crate::fmt::opt_view;
use crate::indentation::{bounded, leading_of, leading_str, IndentOptions};
use crate::lines::{line_content, line_count, line_start, line_start_is, line_starts_grow};
use crate::syntax::{detect_from_path, extension_of, language_of, Language};
use crate::text::{
    chars_of, find, find_from, find_from_is_first, matches_at, same_text, starts_with,
};
use vstd::prelude::*;

verus! {

/// A structural delimiter.
#[derive(Debug, Clone, Copy, PartialEq, Eq, Structural)]
pub enum Delimiter {
    Open(char),
    Close(char),
}

/// What one line contributes to the structure of the document.
#[derive(Debug, PartialEq, Eq)]
pub struct LineScan {
    pub delimiters: Vec<Delimiter>,
    pub leading_closers: usize,
    pub has_code: bool,
    pub literal_continuation: bool,
}

/// A comment or literal that is still open at a line's end.
#[derive(Debug, PartialEq, Eq)]
pub enum MultilineContext {
    BlockComment { start: &'static str, end: &'static str, depth: usize },
    Literal { closer: String },
}

/// What the lexer carries from one line to the next.
#[derive(Debug)]
pub struct LexState {
    pub multiline: Option<MultilineContext>,
}

impl Default for LexState {
    fn default() -> (s: Self)
        ensures
            s.multiline is None,
    {
        LexState { multiline: None }
    }
}

/// The comment and literal syntax of a language.
#[derive(Debug)]
pub struct LexicalProfile {
    pub line_comments: Vec<&'static str>,
    pub block_comments: Vec<(&'static str, &'static str)>,
    pub backtick_literals: bool,
    pub python_triples: bool,
    pub rust_raw_literals: bool,
    pub rust_lifetimes: bool,
    pub lua_long_literals: bool,
}

/// A model of [`LexicalProfile`] over sequences of characters.
pub ghost struct ProfileModel {
    pub line_comments: Seq<Seq<char>>,
    pub block_comments: Seq<(Seq<char>, Seq<char>)>,
    pub backtick_literals: bool,
    pub python_triples: bool,
    pub rust_raw_literals: bool,
    pub rust_lifetimes: bool,
    pub lua_long_literals: bool,
}

/// A model of the lexer's state: outside everything, inside a block comment
/// that is `depth` levels deep, or inside a literal that ends with `end`.
pub ghost enum Context {
    Code,
    Comment { start: Seq<char>, end: Seq<char>, depth: nat },
    Literal { end: Seq<char> },
}

/// What a token means to the structure of the document.
pub ghost enum Class {
    Blank,
    Text,
    Delimiter(Delimiter),
}

/// One token: where it ends, what it is, and the context after it.
pub ghost struct Token {
    pub end: int,
    pub class: Class,
    pub context: Context,
}

impl LexState {
    pub open spec fn model(self) -> Context {
        match self.multiline {
            None => Context::Code,
            Some(MultilineContext::BlockComment { start, end, depth }) => Context::Comment {
                start: start@,
                end: end@,
                depth: depth as nat,
            },
            Some(MultilineContext::Literal { closer }) => Context::Literal { end: closer@ },
        }
    }
}

impl Context {
    /// An open comment is at least one level deep, and what ends it is not empty.
    pub open spec fn wf(self) -> bool {
        match self {
            Context::Code => true,
            Context::Comment { start, end, depth } => start.len() > 0 && end.len() > 0 && depth
                > 0,
            Context::Literal { end } => end.len() > 0,
        }
    }

    /// How deep the open comment is; zero outside comments.
    pub open spec fn depth(self) -> nat {
        match self {
            Context::Comment { start, end, depth } => depth,
            _ => 0,
        }
    }
}

impl ProfileModel {
    /// No comment marker is empty.
    pub open spec fn wf(self) -> bool {
        forall|k: int|
            0 <= k < self.block_comments.len() ==> (#[trigger] self.block_comments[k]).0.len() > 0
                && self.block_comments[k].1.len() > 0
    }
}

impl LexicalProfile {
    pub open spec fn model(self) -> ProfileModel {
        ProfileModel {
            line_comments: self.line_comments@.map_values(|s: &'static str| s@),
            block_comments: self.block_comments@.map_values(
                |p: (&'static str, &'static str)| (p.0@, p.1@),
            ),
            backtick_literals: self.backtick_literals,
            python_triples: self.python_triples,
            rust_raw_literals: self.rust_raw_literals,
            rust_lifetimes: self.rust_lifetimes,
            lua_long_literals: self.lua_long_literals,
        }
    }
}

pub open spec fn is_blank(c: char) -> bool {
    c == ' ' || c == '\t' || c == '\n' || c == '\r' || c == '\x0C'
}

pub open spec fn is_word_byte(c: char) -> bool {
    ('0' <= c <= '9') || ('a' <= c <= 'z') || ('A' <= c <= 'Z') || c == '_'
}

/// Where a block comment of `depth` levels, entered at `i`, closes or runs
/// off the line, and how many levels are open there.
pub open spec fn comment_end(
    cs: Seq<char>,
    i: int,
    start: Seq<char>,
    end: Seq<char>,
    depth: nat,
) -> (int, nat)
    decreases cs.len() - i,
{
    if i >= cs.len() || depth == 0 || start.len() == 0 || end.len() == 0 {
        (i, depth)
    } else if matches_at(cs, i, end) {
        comment_end(cs, i + end.len(), start, end, (depth - 1) as nat)
    } else if matches_at(cs, i, start) {
        comment_end(cs, i + start.len(), start, end, depth + 1)
    } else {
        comment_end(cs, i + 1, start, end, depth)
    }
}

/// Where the literal opened by `quote` before `i` ends: after the first
/// `quote` that no backslash escapes.
pub open spec fn quoted_end(cs: Seq<char>, i: int, quote: char, escaped: bool) -> Option<int>
    decreases cs.len() - i,
{
    if i >= cs.len() || i < 0 {
        None
    } else if escaped {
        quoted_end(cs, i + 1, quote, false)
    } else if cs[i] == '\\' {
        quoted_end(cs, i + 1, quote, true)
    } else if cs[i] == quote {
        Some(i + 1)
    } else {
        quoted_end(cs, i + 1, quote, false)
    }
}

/// Where the character literal that an apostrophe at `i` opens ends: behind one
/// character, or an escape, and the next apostrophe. An apostrophe that opens
/// none belongs to a lifetime.
pub open spec fn char_literal_end(cs: Seq<char>, i: int) -> Option<int> {
    if i + 1 < cs.len() && cs[i + 1] == '\\' {
        quoted_end(cs, i + 1, '\'', false)
    } else if i + 2 < cs.len() && cs[i + 1] != '\'' && cs[i + 2] == '\'' {
        Some(i + 3)
    } else {
        None
    }
}

/// How many `#` stand at `i` and directly behind it.
pub open spec fn hashes_at(cs: Seq<char>, i: int) -> nat
    decreases cs.len() - i,
{
    if 0 <= i < cs.len() && cs[i] == '#' {
        1 + hashes_at(cs, i + 1)
    } else {
        0
    }
}

/// The text that closes a raw literal opened with `n` hashes.
pub open spec fn raw_close(n: nat) -> Seq<char> {
    seq!['"'] + Seq::new(n, |k: int| '#')
}

/// A raw literal opening at `i` (`r"`, `br#"` and so on): the length of the
/// opening and the number of hashes. A raw prefix never continues a word.
pub open spec fn raw_opening(cs: Seq<char>, i: int) -> Option<(int, nat)> {
    if 0 < i <= cs.len() && is_word_byte(cs[i - 1]) {
        None
    } else {
        let r = if 0 <= i < cs.len() && (cs[i] == 'b' || cs[i] == 'c') {
            i + 1
        } else {
            i
        };
        if !(0 <= r < cs.len() && cs[r] == 'r') {
            None
        } else {
            let n = hashes_at(cs, r + 1);
            let q = r + 1 + n;
            if q < cs.len() && cs[q] == '"' {
                Some((q + 1 - i, n))
            } else {
                None
            }
        }
    }
}

/// The first block comment syntax of the profile whose opening stands at `i`,
/// searched from the `k`th on.
pub open spec fn block_at(
    blocks: Seq<(Seq<char>, Seq<char>)>,
    k: int,
    cs: Seq<char>,
    i: int,
) -> Option<(Seq<char>, Seq<char>)>
    decreases blocks.len() - k,
{
    if k >= blocks.len() || k < 0 {
        None
    } else if matches_at(cs, i, blocks[k].0) {
        Some(blocks[k])
    } else {
        block_at(blocks, k + 1, cs, i)
    }
}

pub open spec fn line_comment_at(markers: Seq<Seq<char>>, cs: Seq<char>, i: int) -> bool {
    exists|k: int| 0 <= k < markers.len() && matches_at(cs, i, #[trigger] markers[k])
}

pub open spec fn is_quote(c: char, p: ProfileModel) -> bool {
    c == '\'' || c == '"' || (p.backtick_literals && c == '`')
}

pub open spec fn is_opener(c: char) -> bool {
    c == '{' || c == '(' || c == '['
}

pub open spec fn is_closer(c: char) -> bool {
    c == '}' || c == ')' || c == ']'
}

/// The token at `i < cs.len()` outside comments and literals.
pub open spec fn code_token(cs: Seq<char>, i: int, p: ProfileModel) -> Token {
    let code = Context::Code;
    let c = cs[i];
    if is_blank(c) {
        Token { end: i + 1, class: Class::Blank, context: code }
    } else if block_at(p.block_comments, 0, cs, i) is Some {
        let (start, end) = block_at(p.block_comments, 0, cs, i)->0;
        Token {
            end: i + start.len(),
            class: Class::Text,
            context: Context::Comment { start, end, depth: 1 },
        }
    } else if line_comment_at(p.line_comments, cs, i) {
        Token { end: cs.len() as int, class: Class::Text, context: code }
    } else if p.rust_raw_literals && raw_opening(cs, i) is Some {
        let (len, hashes) = raw_opening(cs, i)->0;
        Token {
            end: i + len,
            class: Class::Text,
            context: Context::Literal { end: raw_close(hashes) },
        }
    } else if p.python_triples && matches_at(cs, i, "\"\"\""@) {
        Token { end: i + 3, class: Class::Text, context: Context::Literal { end: "\"\"\""@ } }
    } else if p.python_triples && matches_at(cs, i, "'''"@) {
        Token { end: i + 3, class: Class::Text, context: Context::Literal { end: "'''"@ } }
    } else if p.lua_long_literals && matches_at(cs, i, "[["@) {
        Token { end: i + 2, class: Class::Text, context: Context::Literal { end: "]]"@ } }
    } else if c == '\'' && p.rust_lifetimes {
        // A lifetime is not a character literal: it is its apostrophe and what
        // follows that.
        Token {
            end: match char_literal_end(cs, i) {
                Some(end) => end,
                None => i + 1,
            },
            class: Class::Text,
            context: code,
        }
    } else if is_quote(c, p) {
        match quoted_end(cs, i + 1, c, false) {
            Some(end) => Token { end, class: Class::Text, context: code },
            None => if c == '`' {
                Token {
                    end: cs.len() as int,
                    class: Class::Text,
                    context: Context::Literal { end: "`"@ },
                }
            } else {
                // An unclosed literal owns the rest of the line.
                Token { end: cs.len() as int, class: Class::Text, context: code }
            },
        }
    } else if is_opener(c) {
        Token { end: i + 1, class: Class::Delimiter(Delimiter::Open(c)), context: code }
    } else if is_closer(c) {
        Token { end: i + 1, class: Class::Delimiter(Delimiter::Close(c)), context: code }
    } else {
        Token { end: i + 1, class: Class::Text, context: code }
    }
}

/// The token at `i < cs.len()` in the given context.
pub open spec fn token_at(cs: Seq<char>, i: int, p: ProfileModel, ctx: Context) -> Token {
    match ctx {
        Context::Code => code_token(cs, i, p),
        Context::Comment { start, end, depth } => {
            let (stop, left) = comment_end(cs, i, start, end, depth);
            Token {
                end: stop,
                class: Class::Text,
                context: if left == 0 {
                    Context::Code
                } else {
                    Context::Comment { start, end, depth: left }
                },
            }
        },
        Context::Literal { end } => match find_from(cs, i, end) {
            Some(k) => Token { end: k + end.len(), class: Class::Text, context: Context::Code },
            None => Token { end: cs.len() as int, class: Class::Text, context: ctx },
        },
    }
}

/// The classes of all tokens from `i` to the end of the line, and the context
/// that is left open there.
pub open spec fn lex(cs: Seq<char>, i: int, p: ProfileModel, ctx: Context) -> (
    Seq<Class>,
    Context,
)
    decreases cs.len() - i,
{
    if i >= cs.len() {
        (Seq::empty(), ctx)
    } else {
        let t = token_at(cs, i, p, ctx);
        if t.end <= i || t.end > cs.len() {
            (Seq::empty(), ctx)
        } else {
            let rest = lex(cs, t.end, p, t.context);
            (seq![t.class] + rest.0, rest.1)
        }
    }
}

/// The delimiters among `classes`, in order.
pub open spec fn delimiters_of(classes: Seq<Class>) -> Seq<Delimiter>
    decreases classes.len(),
{
    if classes.len() == 0 {
        Seq::empty()
    } else {
        let before = delimiters_of(classes.drop_last());
        match classes.last() {
            Class::Delimiter(d) => before.push(d),
            _ => before,
        }
    }
}

/// Only blanks and closing delimiters stand among `classes`.
pub open spec fn only_closers(classes: Seq<Class>) -> bool {
    forall|k: int| 0 <= k < classes.len() ==> match #[trigger] classes[k] {
        Class::Blank => true,
        Class::Delimiter(Delimiter::Close(c)) => true,
        _ => false,
    }
}

/// How many closing delimiters stand before anything but blanks and closers.
pub open spec fn leading_closers_of(classes: Seq<Class>) -> nat
    decreases classes.len(),
{
    if classes.len() == 0 {
        0
    } else {
        let before = leading_closers_of(classes.drop_last());
        if only_closers(classes) && !(classes.last() is Blank) {
            before + 1
        } else {
            before
        }
    }
}

/// Something other than blanks stands among `classes`.
pub open spec fn has_code_of(classes: Seq<Class>) -> bool {
    exists|k: int| 0 <= k < classes.len() && !(#[trigger] classes[k] is Blank)
}

/// `scan` is what the line `cs`, entered in context `ctx`, contributes.
pub open spec fn is_scan(scan: LineScan, cs: Seq<char>, p: ProfileModel, ctx: Context) -> bool {
    let classes = lex(cs, 0, p, ctx).0;
    &&& scan.delimiters@ == delimiters_of(classes)
    &&& scan.leading_closers == leading_closers_of(classes)
    &&& scan.has_code == has_code_of(classes)
    &&& scan.literal_continuation == (ctx is Literal)
}

/// The profile that a language's syntax calls for.
pub open spec fn profile_of(language: Option<Language>) -> ProfileModel {
    let slash = seq!["//"@];
    let hash = seq!["#"@];
    let dash = seq!["--"@];
    let none = Seq::<Seq<char>>::empty();
    let slash_block = seq![("/*"@, "*/"@)];
    let no_block = Seq::<(Seq<char>, Seq<char>)>::empty();
    let base = ProfileModel {
        line_comments: slash,
        block_comments: slash_block,
        backtick_literals: false,
        python_triples: false,
        rust_raw_literals: false,
        rust_lifetimes: false,
        lua_long_literals: false,
    };
    match language {
        Some(Language::Rust) => ProfileModel {
            rust_raw_literals: true,
            rust_lifetimes: true,
            ..base
        },
        Some(Language::JavaScript | Language::TypeScript | Language::Tsx) => ProfileModel {
            backtick_literals: true,
            ..base
        },
        Some(Language::Python) => ProfileModel {
            line_comments: hash,
            block_comments: no_block,
            python_triples: true,
            ..base
        },
        Some(
            Language::Ruby | Language::Bash | Language::Dockerfile | Language::Yaml
            | Language::Toml,
        ) => ProfileModel { line_comments: hash, block_comments: no_block, ..base },
        Some(Language::Properties) => ProfileModel {
            line_comments: seq!["#"@, "!"@],
            block_comments: no_block,
            ..base
        },
        Some(Language::Ini) => ProfileModel {
            line_comments: seq!["#"@, ";"@],
            block_comments: no_block,
            ..base
        },
        Some(Language::Lua) => ProfileModel {
            line_comments: dash,
            block_comments: seq![("--[["@, "]]"@)],
            lua_long_literals: true,
            ..base
        },
        Some(Language::Sql) => ProfileModel { line_comments: dash, ..base },
        Some(Language::Terraform | Language::Hcl) => ProfileModel {
            line_comments: seq!["//"@, "#"@],
            ..base
        },
        Some(Language::Html | Language::Markdown) => ProfileModel {
            line_comments: none,
            block_comments: seq![("<!--"@, "-->"@)],
            ..base
        },
        Some(Language::TreeSitterQuery) => ProfileModel {
            line_comments: seq![";"@],
            block_comments: no_block,
            ..base
        },
        _ => base,
    }
}

impl LexicalProfile {
    /// The comment and literal syntax of `language`; C-like where unknown.
    pub fn for_language(language: Option<Language>) -> (profile: Self)
        ensures
            profile.model() == profile_of(language),
            profile.model().wf(),
    {
        proof {
            reveal_strlit("/*");
            reveal_strlit("*/");
            reveal_strlit("--[[");
            reveal_strlit("]]");
            reveal_strlit("<!--");
            reveal_strlit("-->");
        }
        let mut profile = LexicalProfile {
            line_comments: vec!["//"],
            block_comments: vec![("/*", "*/")],
            backtick_literals: false,
            python_triples: false,
            rust_raw_literals: false,
            rust_lifetimes: false,
            lua_long_literals: false,
        };
        match language {
            Some(Language::Rust) => {
                profile.rust_raw_literals = true;
                profile.rust_lifetimes = true;
            },
            Some(Language::JavaScript | Language::TypeScript | Language::Tsx) => {
                profile.backtick_literals = true;
            },
            Some(Language::Python) => {
                profile.line_comments = vec!["#"];
                profile.block_comments = vec![];
                profile.python_triples = true;
            },
            Some(
                Language::Ruby | Language::Bash | Language::Dockerfile | Language::Yaml
                | Language::Toml,
            ) => {
                profile.line_comments = vec!["#"];
                profile.block_comments = vec![];
            },
            Some(Language::Properties) => {
                profile.line_comments = vec!["#", "!"];
                profile.block_comments = vec![];
            },
            Some(Language::Ini) => {
                profile.line_comments = vec!["#", ";"];
                profile.block_comments = vec![];
            },
            Some(Language::Lua) => {
                profile.line_comments = vec!["--"];
                profile.block_comments = vec![("--[[", "]]")];
                profile.lua_long_literals = true;
            },
            Some(Language::Sql) => {
                profile.line_comments = vec!["--"];
            },
            Some(Language::Terraform | Language::Hcl) => {
                profile.line_comments = vec!["//", "#"];
            },
            Some(Language::Html | Language::Markdown) => {
                profile.line_comments = vec![];
                profile.block_comments = vec![("<!--", "-->")];
            },
            Some(Language::TreeSitterQuery) => {
                profile.line_comments = vec![";"];
                profile.block_comments = vec![];
            },
            _ => {},
        }
        proof {
            assert(profile.model().line_comments =~= profile_of(language).line_comments);
            assert(profile.model().block_comments =~= profile_of(language).block_comments);
        }
        profile
    }
}

/// Where the literal opened at `start` ends, if it does.
fn quoted_literal_end(cs: &Vec<char>, start: usize, quote: char) -> (res: Option<usize>)
    requires
        start < cs.len(),
    ensures
        match res {
            Some(k) => quoted_end(cs@, start + 1, quote, false) == Some(k as int) && start < k
                <= cs.len(),
            None => quoted_end(cs@, start + 1, quote, false) is None,
        },
{
    let mut index: usize = start + 1;
    let mut escaped = false;
    while index < cs.len()
        invariant
            start < index <= cs.len(),
            quoted_end(cs@, index as int, quote, escaped) == quoted_end(
                cs@,
                start + 1,
                quote,
                false,
            ),
        decreases cs.len() - index,
    {
        let c = cs[index];
        if escaped {
            escaped = false;
        } else if c == '\\' {
            escaped = true;
        } else if c == quote {
            return Some(index + 1);
        }
        index += 1;
    }
    None
}

/// The raw literal opening at `index`: its length, and what closes the literal.
fn rust_raw_literal(cs: &Vec<char>, index: usize) -> (res: Option<(usize, String)>)
    requires
        index < cs.len(),
    ensures
        match res {
            Some((len, end)) => exists|hashes: nat| #[trigger]
                raw_close(hashes) == end@ && raw_opening(cs@, index as int) == Some(
                    (len as int, hashes),
                ) && 0 < len <= cs.len() - index,
            None => raw_opening(cs@, index as int) is None,
        },
{
    if index > 0 {
        let before = cs[index - 1];
        if ('0' <= before && before <= '9') || ('a' <= before && before <= 'z') || ('A' <= before
            && before <= 'Z') || before == '_' {
            return None;
        }
    }
    let mut cursor: usize = index;
    if cs[cursor] == 'b' || cs[cursor] == 'c' {
        cursor += 1;
    }
    if cursor >= cs.len() || cs[cursor] != 'r' {
        return None;
    }
    cursor += 1;
    let ghost first = cursor as int;
    let mut end = String::new();
    end.push('"');
    let mut hashes: usize = 0;
    while cursor < cs.len() && cs[cursor] == '#'
        invariant
            first <= cursor <= cs.len(),
            cursor == first + hashes,
            hashes_at(cs@, first) == hashes + hashes_at(cs@, cursor as int),
            end@ == raw_close(hashes as nat),
        decreases cs.len() - cursor,
    {
        cursor += 1;
        hashes += 1;
        end.push('#');
        proof {
            assert(end@ =~= raw_close(hashes as nat));
        }
    }
    proof {
        assert(hashes_at(cs@, cursor as int) == 0);
    }
    if cursor >= cs.len() || cs[cursor] != '"' {
        return None;
    }
    cursor += 1;
    Some((cursor - index, end))
}

proof fn block_at_skips(blocks: Seq<(Seq<char>, Seq<char>)>, k: int, cs: Seq<char>, i: int)
    requires
        0 <= k < blocks.len(),
        !matches_at(cs, i, blocks[k].0),
    ensures
        block_at(blocks, k, cs, i) == block_at(blocks, k + 1, cs, i),
{
}

/// The block comment syntax whose opening stands at `i`.
fn block_comment_at(cs: &Vec<char>, i: usize, profile: &LexicalProfile) -> (res: Option<
    (&'static str, &'static str),
>)
    ensures
        match res {
            Some((start, end)) => block_at(profile.model().block_comments, 0, cs@, i as int)
                == Some((start@, end@)) && matches_at(cs@, i as int, start@) && (
            profile.model().wf() ==> start@.len() > 0 && end@.len() > 0),
            None => block_at(profile.model().block_comments, 0, cs@, i as int) is None,
        },
{
    let mut k: usize = 0;
    let ghost blocks = profile.model().block_comments;
    while k < profile.block_comments.len()
        invariant
            k <= profile.block_comments.len(),
            blocks == profile.model().block_comments,
            block_at(blocks, k as int, cs@, i as int) == block_at(blocks, 0, cs@, i as int),
        decreases profile.block_comments.len() - k,
    {
        let (start, end) = profile.block_comments[k];
        proof {
            assert(blocks[k as int] == (start@, end@));
        }
        if starts_with(cs, i, start) {
            return Some((start, end));
        }
        proof {
            block_at_skips(blocks, k as int, cs@, i as int);
        }
        k += 1;
    }
    None
}

/// Whether a line comment starts at `i`.
fn line_comment_starts(cs: &Vec<char>, i: usize, profile: &LexicalProfile) -> (res: bool)
    ensures
        res == line_comment_at(profile.model().line_comments, cs@, i as int),
{
    let mut k: usize = 0;
    let ghost markers = profile.model().line_comments;
    while k < profile.line_comments.len()
        invariant
            k <= profile.line_comments.len(),
            markers == profile.model().line_comments,
            forall|j: int| 0 <= j < k ==> !matches_at(cs@, i as int, #[trigger] markers[j]),
        decreases profile.line_comments.len() - k,
    {
        let marker = profile.line_comments[k];
        proof {
            assert(markers[k as int] == marker@);
        }
        if starts_with(cs, i, marker) {
            return true;
        }
        k += 1;
    }
    false
}

/// Follows an open block comment from `i`: where it closes or the line ends,
/// and how many levels are open there.
fn skip_comment(cs: &Vec<char>, i: usize, start: &str, end: &str, depth: usize) -> (res: (
    usize,
    usize,
))
    requires
        i < cs.len(),
        start@.len() > 0,
        end@.len() > 0,
        depth > 0,
        depth + (cs.len() - i) <= usize::MAX,
    ensures
        comment_end(cs@, i as int, start@, end@, depth as nat) == (res.0 as int, res.1 as nat),
        i < res.0 <= cs.len(),
        res.1 <= depth + (res.0 - i),
{
    let mut index: usize = i;
    let mut level: usize = depth;
    let end_len: usize = end.unicode_len();
    let start_len: usize = start.unicode_len();
    while index < cs.len() && level > 0
        invariant
            i <= index <= cs.len(),
            i < cs.len(),
            i == index ==> level > 0,
            end_len == end@.len() > 0,
            start_len == start@.len() > 0,
            level <= depth + (index - i),
            depth + (cs.len() - i) <= usize::MAX,
            comment_end(cs@, index as int, start@, end@, level as nat) == comment_end(
                cs@,
                i as int,
                start@,
                end@,
                depth as nat,
            ),
        decreases cs.len() - index,
    {
        if starts_with(cs, index, end) {
            level -= 1;
            index += end_len;
        } else if starts_with(cs, index, start) {
            level += 1;
            index += start_len;
        } else {
            index += 1;
        }
    }
    (index, level)
}

/// What the lexer found at a position.
struct Step {
    end: usize,
    delimiter: Option<Delimiter>,
    blank: bool,
}

impl Step {
    spec fn class(self) -> Class {
        if self.blank {
            Class::Blank
        } else {
            match self.delimiter {
                Some(d) => Class::Delimiter(d),
                None => Class::Text,
            }
        }
    }
}

fn text_step(end: usize) -> (step: Step)
    ensures
        step.end == end,
        step.class() is Text,
{
    Step { end, delimiter: None, blank: false }
}

/// Reads the token at `i` outside comments and literals.
fn code_step(cs: &Vec<char>, i: usize, profile: &LexicalProfile, state: &mut LexState) -> (step:
    Step)
    requires
        i < cs.len(),
        profile.model().wf(),
        old(state).model() is Code,
    ensures
        ({
            let t = code_token(cs@, i as int, profile.model());
            &&& step.end == t.end
            &&& step.class() == t.class
            &&& final(state).model() == t.context
            &&& t.context.wf()
            &&& i < t.end <= cs.len()
            &&& t.context.depth() <= 1
        }),
{
    let c = cs[i];
    if c == ' ' || c == '\t' || c == '\n' || c == '\r' || c == '\x0C' {
        return Step { end: i + 1, delimiter: None, blank: true };
    }
    if let Some((start, end)) = block_comment_at(cs, i, profile) {
        state.multiline = Some(MultilineContext::BlockComment { start, end, depth: 1 });
        return text_step(i + start.unicode_len());
    }
    if line_comment_starts(cs, i, profile) {
        return text_step(cs.len());
    }
    if profile.rust_raw_literals {
        if let Some((opening_len, end)) = rust_raw_literal(cs, i) {
            state.multiline = Some(MultilineContext::Literal { closer: end });
            return text_step(i + opening_len);
        }
    }
    proof {
        reveal_strlit("\"\"\"");
        reveal_strlit("'''");
        reveal_strlit("[[");
        reveal_strlit("]]");
        reveal_strlit("`");
    }
    if profile.python_triples && starts_with(cs, i, "\"\"\"") {
        state.multiline = Some(MultilineContext::Literal { closer: "\"\"\"".to_owned() });
        return text_step(i + 3);
    }
    if profile.python_triples && starts_with(cs, i, "'''") {
        state.multiline = Some(MultilineContext::Literal { closer: "'''".to_owned() });
        return text_step(i + 3);
    }
    if profile.lua_long_literals && starts_with(cs, i, "[[") {
        state.multiline = Some(MultilineContext::Literal { closer: "]]".to_owned() });
        return text_step(i + 2);
    }
    if c == '\'' && profile.rust_lifetimes {
        if i + 1 < cs.len() && cs[i + 1] == '\\' {
            return match quoted_literal_end(cs, i, c) {
                Some(end) => text_step(end),
                None => text_step(i + 1),
            };
        }
        if cs.len() - i > 2 && cs[i + 1] != '\'' && cs[i + 2] == '\'' {
            return text_step(i + 3);
        }
        return text_step(i + 1);
    }
    if c == '\'' || c == '"' || (profile.backtick_literals && c == '`') {
        if let Some(end) = quoted_literal_end(cs, i, c) {
            return text_step(end);
        }
        if c == '`' {
            state.multiline = Some(MultilineContext::Literal { closer: "`".to_owned() });
        }
        return text_step(cs.len());
    }
    if c == '{' || c == '(' || c == '[' {
        return Step { end: i + 1, delimiter: Some(Delimiter::Open(c)), blank: false };
    }
    if c == '}' || c == ')' || c == ']' {
        return Step { end: i + 1, delimiter: Some(Delimiter::Close(c)), blank: false };
    }
    text_step(i + 1)
}

/// Reads the token at `i` in the context that `state` holds.
fn step(cs: &Vec<char>, i: usize, profile: &LexicalProfile, state: &mut LexState) -> (step: Step)
    requires
        i < cs.len(),
        profile.model().wf(),
        old(state).model().wf(),
        old(state).model().depth() + (cs.len() - i) <= usize::MAX,
    ensures
        ({
            let t = token_at(cs@, i as int, profile.model(), old(state).model());
            &&& step.end == t.end
            &&& step.class() == t.class
            &&& final(state).model() == t.context
            &&& t.context.wf()
            &&& i < t.end <= cs.len()
            &&& t.context.depth() <= old(state).model().depth() + (t.end - i)
        }),
{
    match state.multiline.take() {
        None => code_step(cs, i, profile, state),
        Some(MultilineContext::BlockComment { start, end, depth }) => {
            let (stop, left) = skip_comment(cs, i, start, end, depth);
            if left > 0 {
                state.multiline = Some(MultilineContext::BlockComment { start, end, depth: left });
            }
            text_step(stop)
        },
        Some(MultilineContext::Literal { closer: end }) => {
            proof {
                find_from_is_first(cs@, i as int, end@);
            }
            match find(cs, i, &end) {
                Some(k) => text_step(k + end.as_str().unicode_len()),
                None => {
                    state.multiline = Some(MultilineContext::Literal { closer: end });
                    text_step(cs.len())
                },
            }
        },
    }
}

proof fn summaries_of_push(done: Seq<Class>, class: Class)
    ensures
        delimiters_of(done.push(class)) == (match class {
            Class::Delimiter(d) => delimiters_of(done).push(d),
            _ => delimiters_of(done),
        }),
        only_closers(done.push(class)) == (only_closers(done) && match class {
            Class::Blank => true,
            Class::Delimiter(Delimiter::Close(c)) => true,
            _ => false,
        }),
        leading_closers_of(done.push(class)) == leading_closers_of(done) + (if only_closers(
            done.push(class),
        ) && !(class is Blank) {
            1nat
        } else {
            0nat
        }),
        has_code_of(done.push(class)) == (has_code_of(done) || !(class is Blank)),
{
    let all = done.push(class);
    assert(all.drop_last() =~= done);
    assert(all.last() == class);
    assert(forall|k: int| 0 <= k < done.len() ==> all[k] == done[k]);
    assert(all[done.len() as int] == class);
    if has_code_of(done) {
        let k = choose|k: int| 0 <= k < done.len() && !(#[trigger] done[k] is Blank);
        assert(!(all[k] is Blank));
    }
    if only_closers(all) {
        assert(forall|k: int| 0 <= k < done.len() ==> all[k] == #[trigger] done[k]);
    }
}

/// Scans one line: its structural delimiters, how many closers lead it, and
/// the comment or literal that it leaves open.
pub fn scan_line(line: &str, profile: &LexicalProfile, state: &mut LexState) -> (scan: LineScan)
    requires
        profile.model().wf(),
        old(state).model().wf(),
        old(state).model().depth() + line@.len() <= usize::MAX,
    ensures
        is_scan(scan, line@, profile.model(), old(state).model()),
        final(state).model() == lex(line@, 0, profile.model(), old(state).model()).1,
        final(state).model().wf(),
        final(state).model().depth() <= old(state).model().depth() + line@.len(),
        scan.delimiters.len() <= line@.len(),
{
    let cs = chars_of(line);
    let ghost p = profile.model();
    let ghost entry = state.model();
    let literal_continuation = match state.multiline {
        Some(MultilineContext::Literal { .. }) => true,
        _ => false,
    };
    let mut scan = LineScan {
        delimiters: Vec::new(),
        leading_closers: 0,
        has_code: false,
        literal_continuation,
    };
    let mut leading = true;
    let mut index: usize = 0;
    let ghost mut done = Seq::<Class>::empty();
    proof {
        assert(done + lex(cs@, 0, p, entry).0 =~= lex(cs@, 0, p, entry).0);
    }
    while index < cs.len()
        invariant
            index <= cs.len(),
            cs@ == line@,
            p == profile.model(),
            p.wf(),
            state.model().wf(),
            entry.depth() + cs.len() <= usize::MAX,
            state.model().depth() <= entry.depth() + index,
            done.len() <= index,
            lex(cs@, 0, p, entry).0 == done + lex(cs@, index as int, p, state.model()).0,
            lex(cs@, 0, p, entry).1 == lex(cs@, index as int, p, state.model()).1,
            scan.delimiters@ == delimiters_of(done),
            scan.delimiters.len() <= index,
            scan.leading_closers == leading_closers_of(done) <= index,
            scan.has_code == has_code_of(done),
            leading == only_closers(done),
            scan.literal_continuation == (entry is Literal),
        decreases cs.len() - index,
    {
        let ghost before = state.model();
        let found = step(&cs, index, profile, state);
        proof {
            let class = found.class();
            summaries_of_push(done, class);
            let rest = lex(cs@, found.end as int, p, state.model()).0;
            assert(lex(cs@, index as int, p, before).0 == seq![class] + rest);
            assert(done + (seq![class] + rest) =~= done.push(class) + rest);
            done = done.push(class);
        }
        if !found.blank {
            scan.has_code = true;
            match found.delimiter {
                Some(delimiter) => {
                    scan.delimiters.push(delimiter);
                    match delimiter {
                        Delimiter::Close(_) => {
                            if leading {
                                scan.leading_closers += 1;
                            }
                        },
                        Delimiter::Open(_) => {
                            leading = false;
                        },
                    }
                },
                None => {
                    leading = false;
                },
            }
        }
        index = found.end;
    }
    proof {
        assert(done + Seq::<Class>::empty() =~= done);
    }
    scan
}

/// The depth after the first `k` delimiters: a closer without an opener
/// changes nothing.
pub open spec fn depth_after(delimiters: Seq<Delimiter>, k: int, depth: nat) -> nat
    decreases k,
{
    if k <= 0 || k > delimiters.len() {
        depth
    } else {
        let before = depth_after(delimiters, k - 1, depth);
        match delimiters[k - 1] {
            Delimiter::Open(c) => before + 1,
            Delimiter::Close(c) => if before > 0 {
                (before - 1) as nat
            } else {
                0
            },
        }
    }
}

/// The context and the depth at the start of line `k`.
pub open spec fn state_at(t: Seq<char>, p: ProfileModel, k: nat) -> (Context, nat)
    decreases k,
{
    if k == 0 {
        (Context::Code, 0)
    } else {
        let (ctx, depth) = state_at(t, p, (k - 1) as nat);
        let (classes, after) = lex(line_content(t, (k - 1) as nat), 0, p, ctx);
        let delimiters = delimiters_of(classes);
        (after, depth_after(delimiters, delimiters.len() as int, depth))
    }
}

/// The indentation that line `k` gets. Lines without code and the bodies of
/// literals are content, not layout: they keep what they have.
pub open spec fn desired_indent(
    t: Seq<char>,
    p: ProfileModel,
    options: IndentOptions,
    k: nat,
) -> Seq<char> {
    let line = line_content(t, k);
    let (ctx, depth) = state_at(t, p, k);
    let classes = lex(line, 0, p, ctx).0;
    if !has_code_of(classes) || ctx is Literal {
        leading_of(line)
    } else {
        let closers = leading_closers_of(classes);
        let target = if depth > closers {
            depth - closers
        } else {
            0
        };
        options.encoded(bounded(target * options.shift_width))
    }
}

/// One line edit of an auto-indent operation.
#[derive(Debug, PartialEq, Eq)]
pub struct PlannedIndent {
    pub line: usize,
    pub leading_chars: usize,
    pub replacement: Option<String>,
    pub cursor_col: usize,
}

/// `planned` gives line `k` its desired indentation.
pub open spec fn is_planned(
    planned: PlannedIndent,
    t: Seq<char>,
    p: ProfileModel,
    options: IndentOptions,
    k: nat,
) -> bool {
    let desired = desired_indent(t, p, options, k);
    let current = leading_of(line_content(t, k));
    &&& planned.line == k
    &&& planned.leading_chars == current.len()
    &&& planned.cursor_col == desired.len()
    &&& opt_view(planned.replacement) == if desired == current {
        None
    } else {
        Some(desired)
    }
}

/// The profile of the language that a path names.
pub open spec fn profile_for(path: Option<Seq<char>>) -> ProfileModel {
    profile_of(
        match path {
            Some(path) => language_of(extension_of(path)),
            None => None,
        },
    )
}

fn buffer_profile(buffer: &Buffer) -> (profile: LexicalProfile)
    ensures
        profile.model() == profile_for(buffer.model().path),
        profile.model().wf(),
{
    match buffer.file_path() {
        Some(path) => LexicalProfile::for_language(detect_from_path(path)),
        None => LexicalProfile::for_language(None),
    }
}

fn apply_delimiters(delimiters: &Vec<Delimiter>, depth: usize) -> (res: usize)
    requires
        depth + delimiters.len() <= usize::MAX,
    ensures
        res == depth_after(delimiters@, delimiters.len() as int, depth as nat),
        res <= depth + delimiters.len(),
{
    let mut res: usize = depth;
    let mut k: usize = 0;
    while k < delimiters.len()
        invariant
            k <= delimiters.len(),
            depth + delimiters.len() <= usize::MAX,
            res <= depth + k,
            res == depth_after(delimiters@, k as int, depth as nat),
        decreases delimiters.len() - k,
    {
        match delimiters[k] {
            Delimiter::Open(_) => {
                res += 1;
            },
            Delimiter::Close(_) => {
                res = res.saturating_sub(1);
            },
        }
        k += 1;
    }
    res
}

fn bounded_product(a: usize, b: usize) -> (res: usize)
    ensures
        res == bounded(a * b),
{
    match a.checked_mul(b) {
        Some(n) => n,
        None => usize::MAX,
    }
}

/// Plans a complete reindent before the buffer is changed.
///
/// Scanning always begins at the start of the document, so that a single line
/// and a selected range observe the same structural context as the whole.
pub fn plan(buffer: &Buffer, start_line: usize, end_line: usize, options: IndentOptions) -> (plan:
    Vec<PlannedIndent>)
    ensures
        ({
            let count = line_count(buffer.text()) as int;
            let end = if end_line < count {
                end_line as int
            } else {
                count
            };
            &&& plan.len() == if start_line < end {
                end - start_line
            } else {
                0
            }
            &&& forall|i: int|
                0 <= i < plan.len() ==> is_planned(
                    #[trigger] plan@[i],
                    buffer.text(),
                    profile_for(buffer.model().path),
                    options.norm(),
                    (start_line + i) as nat,
                )
        }),
{
    let options = options.normalized();
    let count: usize = buffer.line_count();
    let end: usize = if end_line < count {
        end_line
    } else {
        count
    };
    let mut result: Vec<PlannedIndent> = Vec::new();
    if start_line >= end {
        return result;
    }
    let profile = buffer_profile(buffer);
    let mut lexer = LexState { multiline: None };
    let mut depth: usize = 0;
    let ghost t = buffer.text();
    let ghost p = profile.model();
    let len: usize = buffer.len_chars();
    let mut k: usize = 0;
    while k < end
        invariant
            k <= end,
            start_line < end <= line_count(t),
            t == buffer.text(),
            t.len() == len,
            p == profile.model(),
            p.wf(),
            options.wf(),
            lexer.model().wf(),
            state_at(t, p, k as nat) == (lexer.model(), depth as nat),
            lexer.model().depth() <= line_start(t, k as nat),
            depth <= line_start(t, k as nat),
            result.len() == if k > start_line {
                k - start_line
            } else {
                0
            },
            forall|i: int|
                0 <= i < result.len() ==> is_planned(
                    #[trigger] result@[i],
                    t,
                    p,
                    options,
                    (start_line + i) as nat,
                ),
        decreases end - k,
    {
        let line = buffer.content(k);
        proof {
            line_start_is(t, k as nat);
            line_starts_grow(t, k as nat, (k + 1) as nat);
        }
        let scan = scan_line(line.as_str(), &profile, &mut lexer);
        if k >= start_line {
            let prefix = leading_str(line.as_str());
            let target: usize = depth.saturating_sub(scan.leading_closers);
            let desired = if !scan.has_code || scan.literal_continuation {
                prefix.clone()
            } else {
                options.encode_indent(bounded_product(target, options.shift_width))
            };
            let cursor_col: usize = desired.as_str().unicode_len();
            let leading_chars: usize = prefix.as_str().unicode_len();
            let replacement = if same_text(desired.as_str(), prefix.as_str()) {
                None
            } else {
                Some(desired)
            };
            let planned = PlannedIndent { line: k, leading_chars, replacement, cursor_col };
            proof {
                assert(is_planned(planned, t, p, options, k as nat));
            }
            result.push(planned);
        }
        depth = apply_delimiters(&scan.delimiters, depth);
        k += 1;
    }
    result
}

/// A line of the text, or the end of its lines.
pub open spec fn shown_line(t: Seq<char>, line: nat) -> nat {
    if line < line_count(t) {
        line
    } else {
        line_count(t)
    }
}

/// The last structural opening delimiter before an insertion point, if no
/// delimiter follows it.
pub open spec fn opener_before(
    t: Seq<char>,
    p: ProfileModel,
    line: nat,
    before: Seq<char>,
) -> Option<char> {
    let ctx = state_at(t, p, shown_line(t, line)).0;
    let delimiters = delimiters_of(lex(before, 0, p, ctx).0);
    if delimiters.len() > 0 {
        match delimiters.last() {
            Delimiter::Open(c) => Some(c),
            Delimiter::Close(c) => None,
        }
    } else {
        None
    }
}

/// The last structural opening delimiter before an insertion point. Earlier
/// lines are scanned only for the comments and literals that they leave open.
pub fn opening_delimiter_at_end(buffer: &Buffer, line_idx: usize, text_before_cursor: &str) -> (res:
    Option<char>)
    requires
        line_start(buffer.text(), shown_line(buffer.text(), line_idx as nat))
            + text_before_cursor@.len() <= usize::MAX,
    ensures
        res == opener_before(
            buffer.text(),
            profile_for(buffer.model().path),
            line_idx as nat,
            text_before_cursor@,
        ),
{
    let profile = buffer_profile(buffer);
    let mut lexer = LexState { multiline: None };
    let count: usize = buffer.line_count();
    let end: usize = if line_idx < count {
        line_idx
    } else {
        count
    };
    let ghost t = buffer.text();
    let ghost p = profile.model();
    let len: usize = buffer.len_chars();
    let mut k: usize = 0;
    while k < end
        invariant
            k <= end,
            t == buffer.text(),
            t.len() == len,
            p == profile.model(),
            p.wf(),
            lexer.model().wf(),
            state_at(t, p, k as nat).0 == lexer.model(),
            lexer.model().depth() <= line_start(t, k as nat),
        decreases end - k,
    {
        let line = buffer.content(k);
        proof {
            line_start_is(t, k as nat);
            line_starts_grow(t, k as nat, (k + 1) as nat);
        }
        let _ = scan_line(line.as_str(), &profile, &mut lexer);
        k += 1;
    }
    proof {
        line_start_is(t, k as nat);
    }
    let scan = scan_line(text_before_cursor, &profile, &mut lexer);
    let n: usize = scan.delimiters.len();
    if n > 0 {
        match scan.delimiters[n - 1] {
            Delimiter::Open(opening) => Some(opening),
            Delimiter::Close(_) => None,
        }
    } else {
        None
    }
}

/// The body of a literal whose end does not occur in a line has no structural
/// delimiters there, and the literal goes on.
pub proof fn literal_bodies_are_content(cs: Seq<char>, p: ProfileModel, end: Seq<char>)
    requires
        forall|j: int| 0 <= j ==> !matches_at(cs, j, end),
    ensures
        delimiters_of(lex(cs, 0, p, Context::Literal { end }).0) == Seq::<Delimiter>::empty(),
        lex(cs, 0, p, Context::Literal { end }).1 == (Context::Literal { end }),
{
    find_from_is_first(cs, 0, end);
    let ctx = Context::Literal { end };
    if cs.len() > 0 {
        let t = token_at(cs, 0, p, ctx);
        assert(t.end == cs.len());
        assert(lex(cs, t.end, p, ctx).0 =~= Seq::<Class>::empty());
        let classes = lex(cs, 0, p, ctx).0;
        assert(classes =~= seq![Class::Text]);
        assert(classes.drop_last() =~= Seq::<Class>::empty());
        assert(delimiters_of(Seq::<Class>::empty()) =~= Seq::<Delimiter>::empty());
    }
}

/// A line that starts with a line comment has no structural delimiters.
pub proof fn comment_lines_have_no_delimiters(cs: Seq<char>, p: ProfileModel)
    requires
        cs.len() > 0,
        !is_blank(cs[0]),
        block_at(p.block_comments, 0, cs, 0) is None,
        line_comment_at(p.line_comments, cs, 0),
    ensures
        delimiters_of(lex(cs, 0, p, Context::Code).0) == Seq::<Delimiter>::empty(),
        lex(cs, 0, p, Context::Code).1 is Code,
{
    let t = token_at(cs, 0, p, Context::Code);
    assert(t.end == cs.len());
    assert(lex(cs, t.end, p, Context::Code).0 =~= Seq::<Class>::empty());
    let classes = lex(cs, 0, p, Context::Code).0;
    assert(classes =~= seq![Class::Text]);
    assert(classes.drop_last() =~= Seq::<Class>::empty());
    assert(delimiters_of(Seq::<Class>::empty()) =~= Seq::<Delimiter>::empty());
}

} // verus!
