//! What the brackets of a line mean to the nesting of a document, said of the
//! characters themselves: in code every bracket counts, and in a comment or a
//! literal none does.
use crate::auto_indent::{
    block_at, code_token, comment_end, delimiters_of, depth_after, desired_indent, has_code_of,
    hashes_at, leading_closers_of, lex, line_comment_at, only_closers, opener_before, profile_of, quoted_end,
    raw_opening, shown_line, state_at, token_at, Class, Context, Delimiter, ProfileModel, Token,
};
use crate::indentation::{bounded, leading_of, IndentOptions};
use crate::lines::line_content;
use crate::syntax::Language;
use crate::text::{find_from, find_from_is_first, matches_at};
use vstd::prelude::*;

verus! {

pub open spec fn opens(c: char) -> bool {
    c == '{' || c == '(' || c == '['
}

pub open spec fn closes(c: char) -> bool {
    c == '}' || c == ')' || c == ']'
}

pub open spec fn white(c: char) -> bool {
    c == ' ' || c == '\t' || c == '\n' || c == '\r' || c == '\x0C'
}

/// The brackets among the first `k` characters, in order.
pub open spec fn brackets(cs: Seq<char>, k: int) -> Seq<Delimiter>
    decreases k,
{
    if k <= 0 || k > cs.len() {
        Seq::empty()
    } else if opens(cs[k - 1]) {
        brackets(cs, k - 1).push(Delimiter::Open(cs[k - 1]))
    } else if closes(cs[k - 1]) {
        brackets(cs, k - 1).push(Delimiter::Close(cs[k - 1]))
    } else {
        brackets(cs, k - 1)
    }
}

/// How deep the nesting is behind the first `k` characters: a closing bracket
/// with nothing open changes nothing.
pub open spec fn nesting(cs: Seq<char>, k: int, depth: nat) -> nat
    decreases k,
{
    if k <= 0 || k > cs.len() {
        depth
    } else {
        let before = nesting(cs, k - 1, depth);
        if opens(cs[k - 1]) {
            before + 1
        } else if closes(cs[k - 1]) && before > 0 {
            (before - 1) as nat
        } else {
            before
        }
    }
}

/// A language whose comments start with a hash sign.
pub open spec fn hash_comments(language: Option<Language>) -> bool {
    match language {
        Some(l) => l is Python || l is Ruby || l is Bash || l is Dockerfile || l is Yaml || l
            is Toml || l is Properties || l is Ini || l is Terraform || l is Hcl,
        None => false,
    }
}

/// A language whose comments start with two slashes.
pub open spec fn slash_comments(language: Option<Language>) -> bool {
    match language {
        Some(l) => !(l is Python || l is Ruby || l is Bash || l is Dockerfile || l is Yaml || l
            is Toml || l is Properties || l is Ini || l is Lua || l is Sql || l is Html || l
            is Markdown || l is TreeSitterQuery),
        None => true,
    }
}

/// A language with comments between a slash with a star and a star with a
/// slash.
pub open spec fn star_comments(language: Option<Language>) -> bool {
    slash_comments(language) || language == Some(Language::Sql)
}

pub open spec fn dash_comments(language: Option<Language>) -> bool {
    language == Some(Language::Lua) || language == Some(Language::Sql)
}

pub open spec fn tag_comments(language: Option<Language>) -> bool {
    language == Some(Language::Html) || language == Some(Language::Markdown)
}

pub open spec fn semicolon_comments(language: Option<Language>) -> bool {
    language == Some(Language::Ini) || language == Some(Language::TreeSitterQuery)
}

pub open spec fn backtick_literals(language: Option<Language>) -> bool {
    language == Some(Language::JavaScript) || language == Some(Language::TypeScript) || language
        == Some(Language::Tsx)
}

/// A character that starts no comment and no literal of a language.
pub open spec fn simple(c: char, language: Option<Language>) -> bool {
    &&& c != '"' && c != '\''
    &&& c == '`' ==> !backtick_literals(language)
    &&& c == '/' ==> !star_comments(language)
    &&& c == '#' ==> !hash_comments(language)
    &&& c == '-' ==> !dash_comments(language)
    &&& c == '<' ==> !tag_comments(language)
    &&& c == '!' ==> language != Some(Language::Properties)
    &&& c == ';' ==> !semicolon_comments(language)
}

/// A text that is code alone: no comment and no literal starts in it.
pub open spec fn plain_code(a: Seq<char>, language: Option<Language>) -> bool {
    &&& forall|i: int| 0 <= i < a.len() ==> simple(#[trigger] a[i], language)
    &&& language == Some(Language::Lua) ==> forall|i: int|
        0 <= i < a.len() - 1 ==> (#[trigger] a[i]) != '[' || a[i + 1] != '['
}

/// Code ends before a character: the two together start no raw literal and no
/// long literal.
pub open spec fn ends_before(a: Seq<char>, c: char, language: Option<Language>) -> bool {
    a.len() > 0 ==> {
        &&& language == Some(Language::Rust) ==> {
            &&& c != '#'
            &&& c == '"' ==> a.last() != 'r' && a.last() != '#'
            &&& c == 'r' ==> a.last() != 'b' && a.last() != 'c'
        }
        &&& language == Some(Language::Lua) && c == '[' ==> a.last() != '['
    }
}

/// What a character of code means.
spec fn class_of(c: char) -> Class {
    if white(c) {
        Class::Blank
    } else if opens(c) {
        Class::Delimiter(Delimiter::Open(c))
    } else if closes(c) {
        Class::Delimiter(Delimiter::Close(c))
    } else {
        Class::Text
    }
}

spec fn classes_of(a: Seq<char>) -> Seq<Class> {
    Seq::new(a.len(), |i: int| class_of(a[i]))
}

proof fn first_must_match(cs: Seq<char>, i: int, pat: Seq<char>)
    requires
        matches_at(cs, i, pat),
        pat.len() > 0,
    ensures
        0 <= i < cs.len(),
        cs[i] == pat[0],
        pat.len() > 1 ==> i + 1 < cs.len() && cs[i + 1] == pat[1],
{
    let part = cs.subrange(i, i + pat.len());
    assert(part[0] == cs[i]);
    if pat.len() > 1 {
        assert(part[1] == cs[i + 1]);
    }
}

proof fn markers()
    ensures
        "//"@ == seq!['/', '/'],
        "#"@ == seq!['#'],
        "--"@ == seq!['-', '-'],
        "!"@ == seq!['!'],
        ";"@ == seq![';'],
        "/*"@ == seq!['/', '*'],
        "*/"@ == seq!['*', '/'],
        "<!--"@ == seq!['<', '!', '-', '-'],
        "-->"@ == seq!['-', '-', '>'],
        "--[["@ == seq!['-', '-', '[', '['],
        "]]"@ == seq![']', ']'],
        "[["@ == seq!['[', '['],
        "\"\"\""@ == seq!['"', '"', '"'],
        "'''"@ == seq!['\'', '\'', '\''],
        "`"@ == seq!['`'],
{
    reveal_strlit("//");
    reveal_strlit("#");
    reveal_strlit("--");
    reveal_strlit("!");
    reveal_strlit(";");
    reveal_strlit("/*");
    reveal_strlit("*/");
    reveal_strlit("<!--");
    reveal_strlit("-->");
    reveal_strlit("--[[");
    reveal_strlit("]]");
    reveal_strlit("[[");
    reveal_strlit("\"\"\"");
    reveal_strlit("'''");
    reveal_strlit("`");
    assert("//"@ =~= seq!['/', '/']);
    assert("#"@ =~= seq!['#']);
    assert("--"@ =~= seq!['-', '-']);
    assert("!"@ =~= seq!['!']);
    assert(";"@ =~= seq![';']);
    assert("/*"@ =~= seq!['/', '*']);
    assert("*/"@ =~= seq!['*', '/']);
    assert("<!--"@ =~= seq!['<', '!', '-', '-']);
    assert("-->"@ =~= seq!['-', '-', '>']);
    assert("--[["@ =~= seq!['-', '-', '[', '[']);
    assert("]]"@ =~= seq![']', ']']);
    assert("[["@ =~= seq!['[', '[']);
    assert("\"\"\""@ =~= seq!['"', '"', '"']);
    assert("'''"@ =~= seq!['\'', '\'', '\'']);
    assert("`"@ =~= seq!['`']);
}

/// No comment starts at a simple character.
proof fn no_comment_at(cs: Seq<char>, i: int, language: Option<Language>)
    requires
        0 <= i < cs.len(),
        simple(cs[i], language) || cs[i] == '"' || cs[i] == '\'' || cs[i] == '`',
    ensures
        block_at(profile_of(language).block_comments, 0, cs, i) is None,
        !line_comment_at(profile_of(language).line_comments, cs, i),
{
    let p = profile_of(language);
    markers();
    reveal_with_fuel(block_at, 3);
    if p.block_comments.len() > 0 && matches_at(cs, i, p.block_comments[0].0) {
        first_must_match(cs, i, p.block_comments[0].0);
    }
    assert forall|k: int| 0 <= k < p.line_comments.len() implies !matches_at(
        cs,
        i,
        #[trigger] p.line_comments[k],
    ) by {
        if matches_at(cs, i, p.line_comments[k]) {
            first_must_match(cs, i, p.line_comments[k]);
        }
    }
}

proof fn hashes_are(cs: Seq<char>, i: int)
    requires
        0 <= i,
    ensures
        i <= cs.len() ==> i + hashes_at(cs, i) <= cs.len(),
        forall|j: int| i <= j < i + hashes_at(cs, i) ==> cs[j] == '#',
        i > cs.len() ==> hashes_at(cs, i) == 0,
    decreases cs.len() - i,
{
    if i < cs.len() && cs[i] == '#' {
        hashes_are(cs, i + 1);
    }
}

/// A raw literal opens only before a quote that an `r` or a hash sign precedes.
proof fn no_raw_opening(cs: Seq<char>, i: int, to: int)
    requires
        0 <= i < to <= cs.len(),
        forall|j: int| i <= j < to ==> cs[j] != '"',
        to < cs.len() ==> cs[to] != '#',
        to < cs.len() && cs[to] == 'r' ==> cs[to - 1] != 'b' && cs[to - 1] != 'c',
        to < cs.len() && cs[to] == '"' ==> cs[to - 1] != 'r' && cs[to - 1] != '#',
    ensures
        raw_opening(cs, i) is None,
{
    let r = if cs[i] == 'b' || cs[i] == 'c' {
        i + 1
    } else {
        i
    };
    if r < cs.len() && cs[r] == 'r' {
        hashes_are(cs, r + 1);
        let q = r + 1 + hashes_at(cs, r + 1);
        if q < cs.len() && cs[q] == '"' {
            assert(q >= to);
            assert(cs[q - 1] == 'r' || cs[q - 1] == '#');
            if q > to {
                if to <= r {
                    assert(to == r);
                }
                assert(cs[to] == 'r' || cs[to] == '#');
            }
        }
    }
}

/// A stretch of code has one token for each of its characters.
proof fn code_stretch(cs: Seq<char>, a: Seq<char>, from: int, i: int, language: Option<Language>)
    requires
        0 <= from <= i <= from + a.len() <= cs.len(),
        forall|j: int| 0 <= j < a.len() ==> cs[from + j] == #[trigger] a[j],
        plain_code(a, language),
        from + a.len() < cs.len() ==> ends_before(a, cs[from + a.len()], language),
    ensures
        ({
            let p = profile_of(language);
            let rest = lex(cs, from + a.len(), p, Context::Code);
            lex(cs, i, p, Context::Code) == (classes_of(a).skip(i - from) + rest.0, rest.1)
        }),
    decreases from + a.len() - i,
{
    let p = profile_of(language);
    let to = from + a.len();
    let rest = lex(cs, to, p, Context::Code);
    if i < to {
        code_stretch(cs, a, from, i + 1, language);
        assert(cs[i] == a[i - from]);
        assert(simple(a[i - from], language));
        no_comment_at(cs, i, language);
        if p.rust_raw_literals {
            assert forall|j: int| i <= j < to implies cs[j] != '"' by {
                assert(cs[j] == a[j - from]);
                assert(simple(a[j - from], language));
            }
            assert(cs[to - 1] == a[a.len() - 1]);
            no_raw_opening(cs, i, to);
        }
        markers();
        if matches_at(cs, i, "[["@) {
            first_must_match(cs, i, "[["@);
            if i + 1 < to {
                assert(cs[i + 1] == a[i + 1 - from]);
                assert(cs[i] == a[i - from]);
            }
        }
        if matches_at(cs, i, "\"\"\""@) {
            first_must_match(cs, i, "\"\"\""@);
        }
        if matches_at(cs, i, "'''"@) {
            first_must_match(cs, i, "'''"@);
        }
        let t = code_token(cs, i, p);
        assert(t == Token { end: i + 1, class: class_of(cs[i]), context: Context::Code });
        assert(classes_of(a).skip(i - from) =~= seq![class_of(cs[i])] + classes_of(a).skip(
            i + 1 - from,
        ));
        assert(lex(cs, i, p, Context::Code).0 =~= classes_of(a).skip(i - from) + rest.0);
    } else {
        assert(classes_of(a).skip(i - from) + rest.0 =~= rest.0);
    }
}

proof fn delimiters_join(x: Seq<Class>, y: Seq<Class>)
    ensures
        delimiters_of(x + y) == delimiters_of(x) + delimiters_of(y),
    decreases y.len(),
{
    if y.len() == 0 {
        assert(x + y =~= x);
        assert(delimiters_of(x) + delimiters_of(y) =~= delimiters_of(x));
    } else {
        delimiters_join(x, y.drop_last());
        assert((x + y).drop_last() =~= x + y.drop_last());
        assert((x + y).last() == y.last());
        assert(delimiters_of(x + y) =~= delimiters_of(x) + delimiters_of(y));
    }
}

proof fn text_is_no_delimiter()
    ensures
        delimiters_of(seq![Class::Text]) == Seq::<Delimiter>::empty(),
        leading_closers_of(seq![Class::Text]) == 0,
        delimiters_of(Seq::<Class>::empty()) == Seq::<Delimiter>::empty(),
{
    reveal_with_fuel(delimiters_of, 2);
    reveal_with_fuel(leading_closers_of, 2);
    let one = seq![Class::Text];
    assert(one.drop_last() =~= Seq::<Class>::empty());
    assert(one[0] is Text);
    assert(!only_closers(one));
}

proof fn code_delimiters(a: Seq<char>, k: int)
    requires
        0 <= k <= a.len(),
    ensures
        delimiters_of(classes_of(a).take(k)) == brackets(a, k),
    decreases k,
{
    let all = classes_of(a);
    if k > 0 {
        code_delimiters(a, k - 1);
        assert(all.take(k).drop_last() =~= all.take(k - 1));
        assert(all.take(k).last() == class_of(a[k - 1]));
    } else {
        assert(all.take(0) =~= Seq::empty());
    }
}

/// The closers that lead, up to the first token that is neither blank nor a
/// closer.
proof fn leading_are(classes: Seq<Class>, m: int)
    requires
        0 <= m <= classes.len(),
        only_closers(classes.take(m)),
        m < classes.len() ==> match classes[m] {
            Class::Blank => false,
            Class::Delimiter(Delimiter::Close(c)) => false,
            _ => true,
        },
    ensures
        leading_closers_of(classes) == delimiters_of(classes.take(m)).len(),
    decreases classes.len(),
{
    if classes.len() > 0 {
        let before = classes.drop_last();
        if m < classes.len() {
            assert(before.take(m) =~= classes.take(m));
            leading_are(before, m);
            assert(!only_closers(classes));
        } else {
            assert(classes.take(m) =~= classes);
            assert(before.take(m - 1) =~= before);
            assert forall|k: int| 0 <= k < before.len() implies match #[trigger] before[k] {
                Class::Blank => true,
                Class::Delimiter(Delimiter::Close(c)) => true,
                _ => false,
            } by {
                assert(classes.take(m)[k] == before[k]);
            }
            leading_are(before, m - 1);
            assert(classes.take(m)[m - 1] == classes.last());
        }
    } else {
        assert(classes.take(m) =~= classes);
    }
}

/// In code every bracket counts. A line that is code alone has its brackets,
/// in order, as delimiters; it leaves no comment and no literal open; and the
/// closing brackets that lead it are those before its first other character
/// that is not white space.
pub proof fn code_brackets_count(a: Seq<char>, m: int, language: Option<Language>)
    requires
        plain_code(a, language),
        0 <= m <= a.len(),
        forall|i: int| 0 <= i < m ==> white(#[trigger] a[i]) || closes(a[i]),
        m < a.len() ==> !white(a[m]) && !closes(a[m]),
    ensures
        ({
            let (classes, after) = lex(a, 0, profile_of(language), Context::Code);
            &&& delimiters_of(classes) == brackets(a, a.len() as int)
            &&& after is Code
            &&& leading_closers_of(classes) == brackets(a, m).len()
            &&& has_code_of(classes) <==> exists|i: int| 0 <= i < a.len() && !white(#[trigger] a[i])
        }),
{
    let p = profile_of(language);
    let classes = lex(a, 0, p, Context::Code).0;
    let all = classes_of(a);
    code_stretch(a, a, 0, 0, language);
    assert(all.skip(0) + Seq::<Class>::empty() =~= all);
    assert(classes == all);
    code_delimiters(a, a.len() as int);
    assert(all.take(a.len() as int) =~= all);
    code_delimiters(a, m);
    assert forall|k: int| 0 <= k < all.take(m).len() implies match #[trigger] all.take(m)[k] {
        Class::Blank => true,
        Class::Delimiter(Delimiter::Close(c)) => true,
        _ => false,
    } by {
        assert(all.take(m)[k] == class_of(a[k]));
        assert(white(a[k]) || closes(a[k]));
    }
    leading_are(all, m);
    if has_code_of(classes) {
        let k = choose|k: int| 0 <= k < classes.len() && !(#[trigger] classes[k] is Blank);
        assert(!white(a[k]));
    }
    if exists|i: int| 0 <= i < a.len() && !white(#[trigger] a[i]) {
        let i = choose|i: int| 0 <= i < a.len() && !white(#[trigger] a[i]);
        assert(!(classes[i] is Blank));
    }
}

/// Each of the three brackets, with its partner behind it, leaves the nesting
/// as it was; and a line that starts with a closing bracket has one that
/// leads, whatever stands behind it.
pub proof fn partners_pair_off(o: char, c: char, depth: nat, language: Option<Language>)
    requires
        (o == '{' && c == '}') || (o == '(' && c == ')') || (o == '[' && c == ']'),
    ensures
        ({
            let pair = delimiters_of(lex(seq![o, c], 0, profile_of(language), Context::Code).0);
            &&& pair == seq![Delimiter::Open(o), Delimiter::Close(c)]
            &&& depth_after(pair, 2, depth) == depth
        }),
        leading_closers_of(lex(seq![c], 0, profile_of(language), Context::Code).0) == 1,
{
    let pair = seq![o, c];
    code_brackets_count(pair, 0, language);
    reveal_with_fuel(brackets, 3);
    assert(brackets(pair, 2) =~= seq![Delimiter::Open(o), Delimiter::Close(c)]);
    reveal_with_fuel(depth_after, 3);
    code_brackets_count(seq![c], 1, language);
    assert(brackets(seq![c], 1).len() == 1);
}

/// The delimiters of a text are those of its parts, where a token that is no
/// delimiter stands between them.
proof fn around_a_token(
    cs: Seq<char>,
    a: Seq<char>,
    m: int,
    from: int,
    ctx: Context,
    language: Option<Language>,
)
    requires
        0 <= a.len() < from <= cs.len(),
        forall|j: int| 0 <= j < a.len() ==> cs[j] == #[trigger] a[j],
        plain_code(a, language),
        0 <= m <= a.len(),
        forall|i: int| 0 <= i < m ==> white(#[trigger] a[i]) || closes(a[i]),
        m < a.len() ==> !white(a[m]) && !closes(a[m]),
        ends_before(a, cs[a.len() as int], language),
        code_token(cs, a.len() as int, profile_of(language)) == (Token {
            end: from,
            class: Class::Text,
            context: ctx,
        }),
    ensures
        ({
            let p = profile_of(language);
            let (classes, after) = lex(cs, 0, p, Context::Code);
            let rest = lex(cs, from, p, ctx);
            &&& delimiters_of(classes) == brackets(a, a.len() as int) + delimiters_of(rest.0)
            &&& after == rest.1
            &&& leading_closers_of(classes) == brackets(a, m).len()
            &&& has_code_of(classes)
        }),
{
    let p = profile_of(language);
    let n = a.len() as int;
    let all = classes_of(a);
    let (classes, after) = lex(cs, 0, p, Context::Code);
    let rest = lex(cs, from, p, ctx);
    code_stretch(cs, a, 0, 0, language);
    assert(all.skip(0) =~= all);
    assert(lex(cs, n, p, Context::Code) == (seq![Class::Text] + rest.0, rest.1));
    assert(classes == all + (seq![Class::Text] + rest.0));
    delimiters_join(all, seq![Class::Text] + rest.0);
    delimiters_join(seq![Class::Text], rest.0);
    text_is_no_delimiter();
    assert(Seq::<Delimiter>::empty() + delimiters_of(rest.0) =~= delimiters_of(rest.0));
    code_delimiters(a, n);
    assert(all.take(n) =~= all);
    code_delimiters(a, m);
    assert(classes.take(m) =~= all.take(m));
    assert forall|k: int| 0 <= k < classes.take(m).len() implies match #[trigger] classes.take(
        m,
    )[k] {
        Class::Blank => true,
        Class::Delimiter(Delimiter::Close(c)) => true,
        _ => false,
    } by {
        assert(classes.take(m)[k] == class_of(a[k]));
        assert(white(a[k]) || closes(a[k]));
    }
    if m < n {
        assert(classes[m] == class_of(a[m]));
    } else {
        assert(classes[m] is Text);
    }
    leading_are(classes, m);
    assert(!(classes[n] is Blank));
}

/// What stands between the quotes of a literal: a quote in it has a backslash
/// before it, and no backslash escapes another.
pub open spec fn between_quotes(s: Seq<char>, quote: char) -> bool {
    &&& forall|j: int|
        0 <= j < s.len() && (#[trigger] s[j]) == quote ==> j > 0 && s[j - 1] == '\\'
    &&& forall|j: int|
        0 <= j < s.len() && (#[trigger] s[j]) == '\\' ==> j + 1 < s.len() && s[j + 1] != '\\'
}

proof fn quote_ends_behind(cs: Seq<char>, s: Seq<char>, from: int, i: int, quote: char, escaped: bool)
    requires
        0 <= from <= i <= from + s.len() < cs.len(),
        forall|j: int| 0 <= j < s.len() ==> cs[from + j] == #[trigger] s[j],
        cs[from + s.len()] == quote,
        quote != '\\',
        between_quotes(s, quote),
        escaped == (i > from && s[i - from - 1] == '\\'),
    ensures
        quoted_end(cs, i, quote, escaped) == Some(from + s.len() + 1),
    decreases from + s.len() - i,
{
    if i < from + s.len() {
        assert(cs[i] == s[i - from]);
        if escaped {
            assert(s[i - from - 1] == '\\');
            assert(s[i - from] != '\\');
            quote_ends_behind(cs, s, from, i + 1, quote, false);
        } else if cs[i] == '\\' {
            quote_ends_behind(cs, s, from, i + 1, quote, true);
        } else {
            quote_ends_behind(cs, s, from, i + 1, quote, false);
        }
    }
}

/// The delimiters of code that stands behind something else in its line.
proof fn code_behind(cs: Seq<char>, b: Seq<char>, from: int, language: Option<Language>)
    requires
        0 <= from,
        from + b.len() == cs.len(),
        forall|j: int| 0 <= j < b.len() ==> cs[from + j] == #[trigger] b[j],
        plain_code(b, language),
    ensures
        ({
            let (classes, after) = lex(cs, from, profile_of(language), Context::Code);
            delimiters_of(classes) == brackets(b, b.len() as int) && after is Code
        }),
{
    let p = profile_of(language);
    code_stretch(cs, b, from, from, language);
    let all = classes_of(b);
    assert(all.skip(0) + Seq::<Class>::empty() =~= all);
    code_delimiters(b, b.len() as int);
    assert(all.take(b.len() as int) =~= all);
}

/// A literal is no structure: of a line with a quoted literal only the
/// brackets before and behind it count, whatever the literal holds, escaped
/// quotes too. The literal is code, and it ends the closers that lead.
pub proof fn literals_hide_brackets(
    a: Seq<char>,
    s: Seq<char>,
    b: Seq<char>,
    quote: char,
    m: int,
    language: Option<Language>,
)
    requires
        plain_code(a, language),
        plain_code(b, language),
        quote == '"' || (quote == '\'' && language != Some(Language::Rust)) || (quote == '`'
            && backtick_literals(language)),
        between_quotes(s, quote),
        ends_before(a, quote, language),
        0 <= m <= a.len(),
        forall|i: int| 0 <= i < m ==> white(#[trigger] a[i]) || closes(a[i]),
        m < a.len() ==> !white(a[m]) && !closes(a[m]),
    ensures
        ({
            let line = a + seq![quote] + s + seq![quote] + b;
            let (classes, after) = lex(line, 0, profile_of(language), Context::Code);
            &&& delimiters_of(classes) == brackets(a, a.len() as int) + brackets(
                b,
                b.len() as int,
            )
            &&& after is Code
            &&& leading_closers_of(classes) == brackets(a, m).len()
            &&& has_code_of(classes)
        }),
{
    let p = profile_of(language);
    let line = a + seq![quote] + s + seq![quote] + b;
    let n = a.len() as int;
    let end = n + s.len() + 2;
    assert(forall|j: int| 0 <= j < a.len() ==> line[j] == #[trigger] a[j]);
    assert(line[n] == quote);
    assert(forall|j: int| 0 <= j < s.len() ==> line[n + 1 + j] == #[trigger] s[j]);
    assert(line[n + 1 + s.len()] == quote);
    assert(forall|j: int| 0 <= j < b.len() ==> line[end + j] == #[trigger] b[j]);
    quote_ends_behind(line, s, n + 1, n + 1, quote, false);
    no_comment_at(line, n, language);
    markers();
    assert(raw_opening(line, n) is None);
    assert(!matches_at(line, n, "[["@)) by {
        if matches_at(line, n, "[["@) {
            first_must_match(line, n, "[["@);
        }
    }
    assert(!matches_at(line, n, "\"\"\""@)) by {
        no_triple(line, s, b, n, '"', quote, language);
    }
    assert(!matches_at(line, n, "'''"@)) by {
        no_triple(line, s, b, n, '\'', quote, language);
    }
    around_a_token(line, a, m, end, Context::Code, language);
    code_behind(line, b, end, language);
}

/// Three quotes do not stand where a literal of one quote does.
proof fn no_triple(
    line: Seq<char>,
    s: Seq<char>,
    b: Seq<char>,
    n: int,
    c: char,
    quote: char,
    language: Option<Language>,
)
    requires
        0 <= n,
        line.len() == n + 2 + s.len() + b.len(),
        forall|j: int| 0 <= j < s.len() ==> line[n + 1 + j] == #[trigger] s[j],
        line[n] == quote,
        line[n + 1 + s.len()] == quote,
        forall|j: int| 0 <= j < b.len() ==> line[n + 2 + s.len() + j] == #[trigger] b[j],
        between_quotes(s, quote),
        plain_code(b, language),
        c == '"' || c == '\'',
    ensures
        !matches_at(line, n, seq![c, c, c]),
{
    let pat = seq![c, c, c];
    if matches_at(line, n, pat) {
        let part = line.subrange(n, n + 3);
        assert(part[0] == c && part[1] == c && part[2] == c);
        assert(line[n] == c && line[n + 1] == c && line[n + 2] == c);
        if s.len() > 0 {
            assert(line[n + 1 + 0] == s[0]);
            assert(s[0] != quote);
        } else {
            assert(line[n + 2 + s.len() + 0] == b[0]);
            assert(simple(b[0], language));
        }
    }
}

/// A line that ends in a comment has the brackets before it, and leaves
/// nothing open.
pub proof fn line_comments_hide_brackets(
    a: Seq<char>,
    marker: Seq<char>,
    s: Seq<char>,
    m: int,
    language: Option<Language>,
)
    requires
        plain_code(a, language),
        (marker == "//"@ && slash_comments(language)) || (marker == "#"@ && hash_comments(language))
            || (marker == "--"@ && dash_comments(language)) || (marker == "!"@ && language == Some(
            Language::Properties,
        )) || (marker == ";"@ && semicolon_comments(language)),
        !(language == Some(Language::Lua) && s.len() > 0 && s[0] == '['),
        0 <= m <= a.len(),
        forall|i: int| 0 <= i < m ==> white(#[trigger] a[i]) || closes(a[i]),
        m < a.len() ==> !white(a[m]) && !closes(a[m]),
    ensures
        ({
            let (classes, after) = lex(a + marker + s, 0, profile_of(language), Context::Code);
            &&& delimiters_of(classes) == brackets(a, a.len() as int)
            &&& after is Code
            &&& leading_closers_of(classes) == brackets(a, m).len()
            &&& has_code_of(classes)
        }),
{
    let p = profile_of(language);
    let line = a + marker + s;
    let n = a.len() as int;
    markers();
    assert(forall|j: int| 0 <= j < a.len() ==> line[j] == #[trigger] a[j]);
    assert(line.subrange(n, n + marker.len()) =~= marker);
    assert(matches_at(line, n, marker));
    assert(line[n] == marker[0]);
    reveal_with_fuel(block_at, 3);
    if p.block_comments.len() > 0 && matches_at(line, n, p.block_comments[0].0) {
        let pat = p.block_comments[0].0;
        first_must_match(line, n, pat);
        assert(line[n + 1] == pat[1]);
        if marker.len() == 2 {
            assert(line[n + 1] == marker[1]);
        }
        if pat.len() == 4 {
            assert(line.subrange(n, n + 4)[2] == line[n + 2]);
            assert(line[n + 2] == s[0]);
        }
    }
    assert(exists|k: int| 0 <= k < p.line_comments.len() && #[trigger] p.line_comments[k] == marker)
        by {
        if p.line_comments[0] != marker {
            assert(p.line_comments[1] == marker);
        } else {
            assert(p.line_comments[0] == marker);
        }
    }
    assert(line_comment_at(p.line_comments, line, n));
    around_a_token(line, a, m, line.len() as int, Context::Code, language);
    assert(lex(line, line.len() as int, p, Context::Code).0 =~= Seq::<Class>::empty());
    assert(brackets(a, n) + Seq::<Delimiter>::empty() =~= brackets(a, n));
}

/// How the comments of a language that may span lines start and end.
pub open spec fn comment_marks(start: Seq<char>, end: Seq<char>, language: Option<Language>) -> bool {
    ||| start == "/*"@ && end == "*/"@ && star_comments(language)
    ||| start == "--[["@ && end == "]]"@ && language == Some(Language::Lua)
    ||| start == "<!--"@ && end == "-->"@ && tag_comments(language)
}

/// Neither mark of a comment starts in a stretch of a line.
pub open spec fn unmarked(cs: Seq<char>, from: int, to: int, start: Seq<char>, end: Seq<char>) -> bool {
    forall|j: int|
        from <= j < to ==> !(#[trigger] matches_at(cs, j, start)) && !matches_at(cs, j, end)
}

proof fn comment_runs(
    cs: Seq<char>,
    i: int,
    to: int,
    start: Seq<char>,
    end: Seq<char>,
    depth: nat,
)
    requires
        0 <= i <= to <= cs.len(),
        unmarked(cs, i, to, start, end),
        start.len() > 0,
        end.len() > 0,
        depth > 0,
    ensures
        comment_end(cs, i, start, end, depth) == comment_end(cs, to, start, end, depth),
    decreases to - i,
{
    if i < to {
        assert(!matches_at(cs, i, start) && !matches_at(cs, i, end));
        assert forall|j: int| i + 1 <= j < to implies !(#[trigger] matches_at(cs, j, start))
            && !matches_at(cs, j, end) by {}
        comment_runs(cs, i + 1, to, start, end, depth);
    }
}

/// Where a comment starts behind code, and what is open behind its mark.
proof fn comment_opens(
    cs: Seq<char>,
    a: Seq<char>,
    start: Seq<char>,
    end: Seq<char>,
    m: int,
    language: Option<Language>,
)
    requires
        plain_code(a, language),
        comment_marks(start, end, language),
        a.len() + start.len() <= cs.len(),
        forall|j: int| 0 <= j < a.len() ==> cs[j] == #[trigger] a[j],
        matches_at(cs, a.len() as int, start),
        0 <= m <= a.len(),
        forall|i: int| 0 <= i < m ==> white(#[trigger] a[i]) || closes(a[i]),
        m < a.len() ==> !white(a[m]) && !closes(a[m]),
    ensures
        ({
            let p = profile_of(language);
            let (classes, after) = lex(cs, 0, p, Context::Code);
            let rest = lex(
                cs,
                (a.len() + start.len()) as int,
                p,
                Context::Comment { start, end, depth: 1 },
            );
            &&& delimiters_of(classes) == brackets(a, a.len() as int) + delimiters_of(rest.0)
            &&& after == rest.1
            &&& leading_closers_of(classes) == brackets(a, m).len()
            &&& has_code_of(classes)
        }),
{
    let p = profile_of(language);
    let n = a.len() as int;
    markers();
    first_must_match(cs, n, start);
    reveal_with_fuel(block_at, 3);
    assert(p.block_comments[0] == (start, end));
    around_a_token(
        cs,
        a,
        m,
        n + start.len(),
        Context::Comment { start, end, depth: 1 },
        language,
    );
}

/// What a stretch of a comment without marks means: nothing.
proof fn comment_tail(
    cs: Seq<char>,
    i: int,
    start: Seq<char>,
    end: Seq<char>,
    depth: nat,
    p: ProfileModel,
)
    requires
        0 <= i <= cs.len(),
        unmarked(cs, i, cs.len() as int, start, end),
        start.len() > 0,
        end.len() > 0,
        depth > 0,
    ensures
        ({
            let ctx = Context::Comment { start, end, depth };
            &&& delimiters_of(lex(cs, i, p, ctx).0) == Seq::<Delimiter>::empty()
            &&& leading_closers_of(lex(cs, i, p, ctx).0) == 0
            &&& lex(cs, i, p, ctx).1 == ctx
        }),
{
    let ctx = Context::Comment { start, end, depth };
    comment_runs(cs, i, cs.len() as int, start, end, depth);
    text_is_no_delimiter();
    if i < cs.len() {
        let t = token_at(cs, i, p, ctx);
        assert(t.end == cs.len() && t.context == ctx);
        assert(lex(cs, t.end, p, ctx).0 =~= Seq::<Class>::empty());
        assert(lex(cs, i, p, ctx).0 =~= seq![Class::Text]);
    }
}

/// What the end of a comment of one level leaves: code.
proof fn comment_closes(
    cs: Seq<char>,
    i: int,
    to: int,
    start: Seq<char>,
    end: Seq<char>,
    p: ProfileModel,
)
    requires
        0 <= i <= to,
        to + end.len() <= cs.len(),
        unmarked(cs, i, to, start, end),
        matches_at(cs, to, end),
        start.len() > 0,
        end.len() > 0,
    ensures
        ({
            let (classes, after) = lex(cs, i, p, Context::Comment { start, end, depth: 1 });
            let rest = lex(cs, to + end.len(), p, Context::Code);
            &&& delimiters_of(classes) == delimiters_of(rest.0)
            &&& after == rest.1
            &&& leading_closers_of(classes) == 0
            &&& has_code_of(classes)
        }),
{
    let ctx = Context::Comment { start, end, depth: 1 };
    comment_runs(cs, i, to, start, end, 1);
    reveal_with_fuel(comment_end, 2);
    let t = token_at(cs, i, p, ctx);
    let rest = lex(cs, to + end.len(), p, Context::Code);
    let classes = lex(cs, i, p, ctx).0;
    assert(t.end == to + end.len());
    assert(classes == seq![Class::Text] + rest.0);
    delimiters_join(seq![Class::Text], rest.0);
    text_is_no_delimiter();
    assert(Seq::<Delimiter>::empty() + delimiters_of(rest.0) =~= delimiters_of(rest.0));
    assert(classes[0] is Text);
    assert(classes.take(0) =~= Seq::<Class>::empty());
    leading_are(classes, 0);
}

/// A comment between its marks is no structure: of a line with one, only the
/// brackets before and behind it count.
pub proof fn comments_hide_brackets(
    a: Seq<char>,
    s: Seq<char>,
    b: Seq<char>,
    start: Seq<char>,
    end: Seq<char>,
    m: int,
    language: Option<Language>,
)
    requires
        plain_code(a, language),
        plain_code(b, language),
        comment_marks(start, end, language),
        unmarked(s + end + b, 0, s.len() as int, start, end),
        0 <= m <= a.len(),
        forall|i: int| 0 <= i < m ==> white(#[trigger] a[i]) || closes(a[i]),
        m < a.len() ==> !white(a[m]) && !closes(a[m]),
    ensures
        ({
            let line = a + start + s + end + b;
            let (classes, after) = lex(line, 0, profile_of(language), Context::Code);
            &&& delimiters_of(classes) == brackets(a, a.len() as int) + brackets(
                b,
                b.len() as int,
            )
            &&& after is Code
            &&& leading_closers_of(classes) == brackets(a, m).len()
            &&& has_code_of(classes)
        }),
{
    let p = profile_of(language);
    let line = a + start + s + end + b;
    let tail = s + end + b;
    let n = a.len() as int;
    let i = n + start.len();
    let to = i + s.len();
    markers();
    assert(forall|j: int| 0 <= j < a.len() ==> line[j] == #[trigger] a[j]);
    assert(line.subrange(n, n + start.len()) =~= start);
    assert(line.subrange(to, to + end.len()) =~= end);
    assert(forall|j: int| 0 <= j < b.len() ==> line[to + end.len() + j] == #[trigger] b[j]);
    assert(line.skip(i) =~= tail);
    assert forall|j: int| i <= j < to implies !(#[trigger] matches_at(line, j, start))
        && !matches_at(line, j, end) by {
        same_match(line, tail, i, j - i, start);
        same_match(line, tail, i, j - i, end);
        assert(!matches_at(tail, j - i, start));
    }
    comment_opens(line, a, start, end, m, language);
    comment_closes(line, i, to, start, end, p);
    code_behind(line, b, to + end.len(), language);
}

/// A pattern stands in a text where it stands in its tail.
proof fn same_match(cs: Seq<char>, tail: Seq<char>, i: int, j: int, pat: Seq<char>)
    requires
        0 <= i <= cs.len(),
        tail == cs.skip(i),
        0 <= j,
    ensures
        matches_at(cs, i + j, pat) == matches_at(tail, j, pat),
{
    if i + j + pat.len() <= cs.len() {
        assert(cs.subrange(i + j, i + j + pat.len()) =~= tail.subrange(j, j + pat.len()));
    }
}

/// A comment that its line does not end goes on: the line has the brackets
/// before it, and the comment is open, one level deep.
pub proof fn comments_go_on(
    a: Seq<char>,
    s: Seq<char>,
    start: Seq<char>,
    end: Seq<char>,
    m: int,
    language: Option<Language>,
)
    requires
        plain_code(a, language),
        comment_marks(start, end, language),
        unmarked(s, 0, s.len() as int, start, end),
        0 <= m <= a.len(),
        forall|i: int| 0 <= i < m ==> white(#[trigger] a[i]) || closes(a[i]),
        m < a.len() ==> !white(a[m]) && !closes(a[m]),
    ensures
        ({
            let (classes, after) = lex(a + start + s, 0, profile_of(language), Context::Code);
            &&& delimiters_of(classes) == brackets(a, a.len() as int)
            &&& after == Context::Comment { start, end, depth: 1 }
            &&& leading_closers_of(classes) == brackets(a, m).len()
        }),
{
    let p = profile_of(language);
    let line = a + start + s;
    let n = a.len() as int;
    let i = n + start.len();
    markers();
    assert(forall|j: int| 0 <= j < a.len() ==> line[j] == #[trigger] a[j]);
    assert(line.subrange(n, n + start.len()) =~= start);
    assert(line.skip(i) =~= s);
    assert forall|j: int| i <= j < line.len() implies !(#[trigger] matches_at(line, j, start))
        && !matches_at(line, j, end) by {
        same_match(line, s, i, j - i, start);
        same_match(line, s, i, j - i, end);
        assert(!matches_at(s, j - i, start));
    }
    comment_opens(line, a, start, end, m, language);
    comment_tail(line, i, start, end, 1, p);
    assert(brackets(a, n) + Seq::<Delimiter>::empty() =~= brackets(a, n));
}

/// Lines inside a comment. One without marks is no structure, and the comment
/// goes on; the mark of its end takes off a level, and a further start mark
/// adds one; behind the end of the last level, brackets count again.
pub proof fn lines_inside_comments(
    s: Seq<char>,
    b: Seq<char>,
    start: Seq<char>,
    end: Seq<char>,
    depth: nat,
    language: Option<Language>,
)
    requires
        comment_marks(start, end, language),
        plain_code(b, language),
        depth > 0,
    ensures
        ({
            let p = profile_of(language);
            let ctx = Context::Comment { start, end, depth };
            &&& unmarked(s, 0, s.len() as int, start, end) ==> {
                &&& delimiters_of(lex(s, 0, p, ctx).0) == Seq::<Delimiter>::empty()
                &&& lex(s, 0, p, ctx).1 == ctx
            }
            &&& unmarked(s + end, 0, s.len() as int, start, end) && depth > 1 ==> lex(
                s + end,
                0,
                p,
                ctx,
            ).1 == Context::Comment { start, end, depth: (depth - 1) as nat }
            &&& unmarked(s + start, 0, s.len() as int, start, end) ==> lex(s + start, 0, p, ctx).1
                == Context::Comment { start, end, depth: depth + 1 }
            &&& unmarked(s + end + b, 0, s.len() as int, start, end) && depth == 1 ==> {
                let (classes, after) = lex(s + end + b, 0, p, ctx);
                &&& delimiters_of(classes) == brackets(b, b.len() as int)
                &&& after is Code
                &&& leading_closers_of(classes) == 0
            }
        }),
{
    let p = profile_of(language);
    let n = s.len() as int;
    comment_marks_are(start, end, language);
    if unmarked(s, 0, n, start, end) {
        comment_tail(s, 0, start, end, depth, p);
    }
    if unmarked(s + end, 0, n, start, end) && depth > 1 {
        comment_mark_at_end(s, end, start, end, depth, p);
    }
    if unmarked(s + start, 0, n, start, end) {
        comment_mark_at_end(s, start, start, end, depth, p);
    }
    if unmarked(s + end + b, 0, n, start, end) && depth == 1 {
        comment_then_code(s, b, start, end, language);
    }
}

proof fn comment_marks_are(start: Seq<char>, end: Seq<char>, language: Option<Language>)
    requires
        comment_marks(start, end, language),
    ensures
        start.len() > 1,
        end.len() > 1,
        start[0] != end[0] || start[1] != end[1] || start.len() < end.len(),
        !(start.len() < end.len()),
{
    markers();
}

/// A line of a comment that ends with one of its marks.
proof fn comment_mark_at_end(
    s: Seq<char>,
    mark: Seq<char>,
    start: Seq<char>,
    end: Seq<char>,
    depth: nat,
    p: ProfileModel,
)
    requires
        unmarked(s + mark, 0, s.len() as int, start, end),
        start.len() > 1,
        end.len() > 1,
        start[0] != end[0] || start[1] != end[1],
        (mark == end && depth > 1) || (mark == start && depth > 0),
    ensures
        lex(s + mark, 0, p, Context::Comment { start, end, depth }).1 == (Context::Comment {
            start,
            end,
            depth: if mark == end {
                (depth - 1) as nat
            } else {
                depth + 1
            },
        }),
{
    let line = s + mark;
    let n = s.len() as int;
    let ctx = Context::Comment { start, end, depth };
    comment_runs(line, 0, n, start, end, depth);
    assert(line.subrange(n, n + mark.len()) =~= mark);
    if mark != end && matches_at(line, n, end) {
        first_must_match(line, n, end);
        assert(line[n] == mark[0]);
        assert(line[n + 1] == mark[1]);
    }
    reveal_with_fuel(comment_end, 2);
    let t = token_at(line, 0, p, ctx);
    assert(t.end == line.len());
    assert(lex(line, t.end, p, t.context).1 == t.context);
}

proof fn comment_then_code(
    s: Seq<char>,
    b: Seq<char>,
    start: Seq<char>,
    end: Seq<char>,
    language: Option<Language>,
)
    requires
        unmarked(s + end + b, 0, s.len() as int, start, end),
        start.len() > 0,
        end.len() > 0,
        plain_code(b, language),
    ensures
        ({
            let (classes, after) = lex(
                s + end + b,
                0,
                profile_of(language),
                Context::Comment { start, end, depth: 1 },
            );
            &&& delimiters_of(classes) == brackets(b, b.len() as int)
            &&& after is Code
            &&& leading_closers_of(classes) == 0
        }),
{
    let line = s + end + b;
    let n = s.len() as int;
    assert(line.subrange(n, n + end.len()) =~= end);
    assert(forall|j: int| 0 <= j < b.len() ==> line[n + end.len() + j] == #[trigger] b[j]);
    comment_closes(line, 0, n, start, end, profile_of(language));
    code_behind(line, b, n + end.len(), language);
}

/// How the literals of a language that may span lines start and end. The first
/// holds `n` hash signs where the language counts them.
pub open spec fn literal_marks(
    opening: Seq<char>,
    closing: Seq<char>,
    n: nat,
    language: Option<Language>,
) -> bool {
    let hashes = Seq::new(n, |k: int| '#');
    ||| opening == "\"\"\""@ && closing == "\"\"\""@ && language == Some(Language::Python)
    ||| opening == "'''"@ && closing == "'''"@ && language == Some(Language::Python)
    ||| opening == "[["@ && closing == "]]"@ && language == Some(Language::Lua)
    ||| opening == seq!['r'] + hashes + seq!['"'] && closing == seq!['"'] + hashes && language
        == Some(Language::Rust)
}

/// A word could go on where a raw literal would start.
pub open spec fn ends_word(a: Seq<char>) -> bool {
    a.len() > 0 && (('0' <= a.last() <= '9') || ('a' <= a.last() <= 'z') || ('A' <= a.last()
        <= 'Z') || a.last() == '_')
}

proof fn hashes_count(cs: Seq<char>, i: int, n: nat)
    requires
        0 <= i,
        i + n < cs.len(),
        forall|j: int| i <= j < i + n ==> cs[j] == '#',
        cs[i + n] != '#',
    ensures
        hashes_at(cs, i) == n,
    decreases n,
{
    if n > 0 {
        assert(cs[i] == '#');
        hashes_count(cs, i + 1, (n - 1) as nat);
    }
}

/// Where a literal starts behind code, and what is open behind its mark.
proof fn literal_opens(
    cs: Seq<char>,
    a: Seq<char>,
    opening: Seq<char>,
    closing: Seq<char>,
    n: nat,
    m: int,
    language: Option<Language>,
)
    requires
        plain_code(a, language),
        literal_marks(opening, closing, n, language),
        a.len() > 0 && opening[0] == '[' ==> a.last() != '[',
        opening[0] == 'r' ==> !ends_word(a),
        a.len() + opening.len() <= cs.len(),
        forall|j: int| 0 <= j < a.len() ==> cs[j] == #[trigger] a[j],
        matches_at(cs, a.len() as int, opening),
        0 <= m <= a.len(),
        forall|i: int| 0 <= i < m ==> white(#[trigger] a[i]) || closes(a[i]),
        m < a.len() ==> !white(a[m]) && !closes(a[m]),
    ensures
        ({
            let p = profile_of(language);
            let (classes, after) = lex(cs, 0, p, Context::Code);
            let rest = lex(
                cs,
                (a.len() + opening.len()) as int,
                p,
                Context::Literal { end: closing },
            );
            &&& delimiters_of(classes) == brackets(a, a.len() as int) + delimiters_of(rest.0)
            &&& after == rest.1
            &&& leading_closers_of(classes) == brackets(a, m).len()
            &&& has_code_of(classes)
        }),
{
    let p = profile_of(language);
    let at = a.len() as int;
    markers();
    let part = cs.subrange(at, at + opening.len());
    assert(part == opening);
    assert(opening.len() > 0);
    first_must_match(cs, at, opening);
    no_comment_at(cs, at, language);
    if opening[0] == 'r' {
        let hashes = Seq::new(n, |k: int| '#');
        assert(opening.len() == n + 2);
        assert forall|j: int| at + 1 <= j < at + 1 + n implies cs[j] == '#' by {
            assert(part[j - at] == cs[j]);
            assert(opening[j - at] == hashes[j - at - 1]);
        }
        assert(part[n as int + 1] == cs[at + 1 + n]);
        assert(opening[n as int + 1] == '"');
        hashes_count(cs, at + 1, n);
        if at > 0 {
            assert(cs[at - 1] == a[at - 1]);
        }
        assert(raw_opening(cs, at) == Some((n as int + 2, n)));
        assert(crate::auto_indent::raw_close(n) =~= closing);
    } else {
        assert(cs[at] == opening[0]);
        assert(raw_opening(cs, at) is None);
        if opening[0] == '\'' && matches_at(cs, at, "\"\"\""@) {
            first_must_match(cs, at, "\"\"\""@);
        }
    }
    around_a_token(cs, a, m, at + opening.len(), Context::Literal { end: closing }, language);
}

/// A literal over several lines is no structure. The line in which it starts
/// has the brackets before it; where the closing mark stands first, brackets
/// count again behind it, and where it does not stand, the literal goes on.
pub proof fn long_literals_hide_brackets(
    a: Seq<char>,
    s: Seq<char>,
    b: Seq<char>,
    opening: Seq<char>,
    closing: Seq<char>,
    n: nat,
    m: int,
    language: Option<Language>,
)
    requires
        plain_code(a, language),
        plain_code(b, language),
        literal_marks(opening, closing, n, language),
        a.len() > 0 && opening[0] == '[' ==> a.last() != '[',
        opening[0] == 'r' ==> !ends_word(a),
        forall|j: int| 0 <= j < s.len() ==> !(#[trigger] matches_at(s + closing + b, j, closing)),
        0 <= m <= a.len(),
        forall|i: int| 0 <= i < m ==> white(#[trigger] a[i]) || closes(a[i]),
        m < a.len() ==> !white(a[m]) && !closes(a[m]),
    ensures
        ({
            let p = profile_of(language);
            let here = Context::Literal { end: closing };
            let whole = lex(a + opening + s + closing + b, 0, p, Context::Code);
            let first = lex(a + opening + s, 0, p, Context::Code);
            let last = lex(s + closing + b, 0, p, here);
            &&& delimiters_of(whole.0) == brackets(a, a.len() as int) + brackets(b, b.len() as int)
            &&& whole.1 is Code
            &&& leading_closers_of(whole.0) == brackets(a, m).len()
            &&& delimiters_of(first.0) == brackets(a, a.len() as int)
            &&& first.1 == here
            &&& leading_closers_of(first.0) == brackets(a, m).len()
            &&& delimiters_of(last.0) == brackets(b, b.len() as int)
            &&& last.1 is Code
        }),
{
    literal_marks_are(opening, closing, n, language);
    whole_literal(a, s, b, opening, closing, n, m, language);
    literal_goes_on(a, s, b, opening, closing, n, m, language);
    let tail = s + closing + b;
    assert(tail.skip(0) =~= tail);
    literal_closes(tail, 0, s, b, closing, language);
}

proof fn literal_marks_are(
    opening: Seq<char>,
    closing: Seq<char>,
    n: nat,
    language: Option<Language>,
)
    requires
        literal_marks(opening, closing, n, language),
    ensures
        opening.len() > 0,
        closing.len() > 0,
{
    markers();
}

proof fn whole_literal(
    a: Seq<char>,
    s: Seq<char>,
    b: Seq<char>,
    opening: Seq<char>,
    closing: Seq<char>,
    n: nat,
    m: int,
    language: Option<Language>,
)
    requires
        plain_code(a, language),
        plain_code(b, language),
        literal_marks(opening, closing, n, language),
        opening.len() > 0,
        closing.len() > 0,
        a.len() > 0 && opening[0] == '[' ==> a.last() != '[',
        opening[0] == 'r' ==> !ends_word(a),
        forall|j: int| 0 <= j < s.len() ==> !(#[trigger] matches_at(s + closing + b, j, closing)),
        0 <= m <= a.len(),
        forall|i: int| 0 <= i < m ==> white(#[trigger] a[i]) || closes(a[i]),
        m < a.len() ==> !white(a[m]) && !closes(a[m]),
    ensures
        ({
            let whole = lex(
                a + opening + s + closing + b,
                0,
                profile_of(language),
                Context::Code,
            );
            &&& delimiters_of(whole.0) == brackets(a, a.len() as int) + brackets(b, b.len() as int)
            &&& whole.1 is Code
            &&& leading_closers_of(whole.0) == brackets(a, m).len()
        }),
{
    let tail = s + closing + b;
    let n0 = a.len() as int;
    let i = n0 + opening.len();
    let whole = a + opening + s + closing + b;
    assert(forall|j: int| 0 <= j < a.len() ==> whole[j] == #[trigger] a[j]);
    assert(whole.subrange(n0, n0 + opening.len()) =~= opening);
    assert(whole.skip(i) =~= tail);
    literal_opens(whole, a, opening, closing, n, m, language);
    assert forall|j: int| i <= j < i + s.len() implies !(#[trigger] matches_at(
        whole,
        j,
        closing,
    )) by {
        same_match(whole, tail, i, j - i, closing);
        assert(!matches_at(tail, j - i, closing));
    }
    literal_closes(whole, i, s, b, closing, language);
}

proof fn literal_goes_on(
    a: Seq<char>,
    s: Seq<char>,
    b: Seq<char>,
    opening: Seq<char>,
    closing: Seq<char>,
    n: nat,
    m: int,
    language: Option<Language>,
)
    requires
        plain_code(a, language),
        literal_marks(opening, closing, n, language),
        opening.len() > 0,
        closing.len() > 0,
        a.len() > 0 && opening[0] == '[' ==> a.last() != '[',
        opening[0] == 'r' ==> !ends_word(a),
        forall|j: int| 0 <= j < s.len() ==> !(#[trigger] matches_at(s + closing + b, j, closing)),
        0 <= m <= a.len(),
        forall|i: int| 0 <= i < m ==> white(#[trigger] a[i]) || closes(a[i]),
        m < a.len() ==> !white(a[m]) && !closes(a[m]),
    ensures
        ({
            let first = lex(a + opening + s, 0, profile_of(language), Context::Code);
            &&& delimiters_of(first.0) == brackets(a, a.len() as int)
            &&& first.1 == Context::Literal { end: closing }
            &&& leading_closers_of(first.0) == brackets(a, m).len()
        }),
{
    let p = profile_of(language);
    let here = Context::Literal { end: closing };
    let tail = s + closing + b;
    let n0 = a.len() as int;
    let i = n0 + opening.len();
    let first = a + opening + s;
    assert(forall|j: int| 0 <= j < a.len() ==> first[j] == #[trigger] a[j]);
    assert(first.subrange(n0, n0 + opening.len()) =~= opening);
    literal_opens(first, a, opening, closing, n, m, language);
    assert forall|j: int| i <= j implies !(#[trigger] matches_at(first, j, closing)) by {
        if matches_at(first, j, closing) {
            assert(first.subrange(j, j + closing.len()) =~= tail.subrange(
                j - i,
                j - i + closing.len(),
            ));
            assert(matches_at(tail, j - i, closing));
            assert(j - i < s.len());
        }
    }
    find_from_is_first(first, i, closing);
    text_is_no_delimiter();
    if i < first.len() {
        let t = token_at(first, i, p, here);
        assert(t.end == first.len() && t.context == here);
        assert(lex(first, t.end, p, here).0 =~= Seq::<Class>::empty());
        assert(lex(first, i, p, here).0 =~= seq![Class::Text]);
    }
    assert(brackets(a, n0) + Seq::<Delimiter>::empty() =~= brackets(a, n0));
}

proof fn literal_closes(
    cs: Seq<char>,
    i: int,
    s: Seq<char>,
    b: Seq<char>,
    closing: Seq<char>,
    language: Option<Language>,
)
    requires
        0 <= i <= cs.len(),
        cs.skip(i) == s + closing + b,
        closing.len() > 0,
        plain_code(b, language),
        forall|j: int| i <= j < i + s.len() ==> !(#[trigger] matches_at(cs, j, closing)),
    ensures
        ({
            let (classes, after) = lex(
                cs,
                i,
                profile_of(language),
                Context::Literal { end: closing },
            );
            delimiters_of(classes) == brackets(b, b.len() as int) && after is Code
        }),
{
    let p = profile_of(language);
    let here = Context::Literal { end: closing };
    let to = i + s.len();
    let tail = cs.skip(i);
    assert(tail.len() == cs.len() - i);
    assert(to + closing.len() + b.len() == cs.len());
    assert(cs.subrange(to, to + closing.len()) =~= closing) by {
        assert(cs.subrange(to, to + closing.len()) =~= tail.subrange(
            s.len() as int,
            (s.len() + closing.len()) as int,
        ));
        assert(tail.subrange(s.len() as int, (s.len() + closing.len()) as int) =~= closing);
    }
    assert(matches_at(cs, to, closing));
    find_from_is_first(cs, i, closing);
    assert(find_from(cs, i, closing) == Some(to));
    let t = token_at(cs, i, p, here);
    assert(t.end == to + closing.len());
    let rest = lex(cs, t.end, p, Context::Code);
    assert forall|j: int| 0 <= j < b.len() implies cs[t.end + j] == #[trigger] b[j] by {
        assert(cs[t.end + j] == tail[t.end - i + j]);
    }
    code_behind(cs, b, t.end, language);
    assert(lex(cs, i, p, here).0 == seq![Class::Text] + rest.0);
    delimiters_join(seq![Class::Text], rest.0);
    text_is_no_delimiter();
    assert(Seq::<Delimiter>::empty() + delimiters_of(rest.0) =~= delimiters_of(rest.0));
}

proof fn depths_agree(cs: Seq<char>, k: int, depth: nat)
    requires
        0 <= k <= cs.len(),
    ensures
        depth_after(brackets(cs, k), brackets(cs, k).len() as int, depth) == nesting(cs, k, depth),
    decreases k,
{
    if k > 0 {
        depths_agree(cs, k - 1, depth);
        let before = brackets(cs, k - 1);
        let now = brackets(cs, k);
        if now.len() > before.len() {
            depth_of_prefix(before, now, before.len() as int, depth);
        }
    }
}

proof fn depth_of_prefix(a: Seq<Delimiter>, b: Seq<Delimiter>, k: int, depth: nat)
    requires
        0 <= k <= a.len(),
        k <= b.len(),
        forall|i: int| 0 <= i < k ==> a[i] == b[i],
    ensures
        depth_after(a, k, depth) == depth_after(b, k, depth),
    decreases k,
{
    if k > 0 {
        depth_of_prefix(a, b, k - 1, depth);
    }
}

/// Where a line of code belongs: one level deeper for each bracket that the
/// lines before it leave open, less one for each closing bracket that leads
/// it. The next line is nested as its own brackets say.
pub proof fn code_is_indented_by_its_nesting(
    t: Seq<char>,
    language: Option<Language>,
    o: IndentOptions,
    k: nat,
    m: int,
)
    requires
        state_at(t, profile_of(language), k).0 is Code,
        plain_code(line_content(t, k), language),
        0 <= m <= line_content(t, k).len(),
        forall|i: int|
            0 <= i < m ==> white(#[trigger] line_content(t, k)[i]) || closes(line_content(t, k)[i]),
        m < line_content(t, k).len() ==> !white(line_content(t, k)[m]) && !closes(
            line_content(t, k)[m],
        ),
    ensures
        ({
            let line = line_content(t, k);
            let p = profile_of(language);
            let depth = state_at(t, p, k).1;
            let led = brackets(line, m).len();
            let levels = if depth > led {
                depth - led
            } else {
                0
            };
            &&& state_at(t, p, k + 1) == (Context::Code, nesting(line, line.len() as int, depth))
            &&& desired_indent(t, p, o, k) == if exists|i: int|
                0 <= i < line.len() && !white(#[trigger] line[i]) {
                o.encoded(bounded(levels * o.shift_width))
            } else {
                leading_of(line)
            }
        }),
{
    let line = line_content(t, k);
    let depth = state_at(t, profile_of(language), k).1;
    code_brackets_count(line, m, language);
    depths_agree(line, line.len() as int, depth);
    assert((k + 1 - 1) as nat == k);
}

/// A document starts outside everything, at level zero.
pub proof fn documents_start_at_level_zero(t: Seq<char>, p: ProfileModel)
    ensures
        state_at(t, p, 0) == (Context::Code, 0nat),
{
}

/// A line that is broken behind code goes on one level deeper where the last
/// bracket of the code opens; a bracket that closes, or none, gives no level.
pub proof fn the_last_bracket_decides(
    t: Seq<char>,
    language: Option<Language>,
    line: nat,
    a: Seq<char>,
)
    requires
        plain_code(a, language),
        state_at(t, profile_of(language), shown_line(t, line)).0 is Code,
    ensures
        ({
            let all = brackets(a, a.len() as int);
            opener_before(t, profile_of(language), line, a) == if all.len() > 0 {
                match all.last() {
                    Delimiter::Open(c) => Some(c),
                    Delimiter::Close(c) => None,
                }
            } else {
                None
            }
        }),
{
    let p = profile_of(language);
    code_stretch(a, a, 0, 0, language);
    let all = classes_of(a);
    assert(all.skip(0) + Seq::<Class>::empty() =~= all);
    code_delimiters(a, a.len() as int);
    assert(all.take(a.len() as int) =~= all);
}

/// In Rust a lifetime hides nothing: the brackets behind its apostrophe count.
pub proof fn lifetimes_hide_nothing(a: Seq<char>, b: Seq<char>, m: int)
    requires
        plain_code(a, Some(Language::Rust)),
        plain_code(b, Some(Language::Rust)),
        b.len() > 0 ==> b[0] != '\\',
        0 <= m <= a.len(),
        forall|i: int| 0 <= i < m ==> white(#[trigger] a[i]) || closes(a[i]),
        m < a.len() ==> !white(a[m]) && !closes(a[m]),
    ensures
        ({
            let line = a + seq!['\''] + b;
            let (classes, after) = lex(
                line,
                0,
                profile_of(Some(Language::Rust)),
                Context::Code,
            );
            &&& delimiters_of(classes) == brackets(a, a.len() as int) + brackets(
                b,
                b.len() as int,
            )
            &&& after is Code
            &&& leading_closers_of(classes) == brackets(a, m).len()
        }),
{
    let language = Some(Language::Rust);
    let line = a + seq!['\''] + b;
    let n = a.len() as int;
    assert(forall|j: int| 0 <= j < a.len() ==> line[j] == #[trigger] a[j]);
    assert(line[n] == '\'');
    assert(forall|j: int| 0 <= j < b.len() ==> line[n + 1 + j] == #[trigger] b[j]);
    no_comment_at(line, n, language);
    assert(raw_opening(line, n) is None);
    if b.len() > 0 {
        assert(line[n + 1] == b[0]);
        assert(simple(b[0], language));
    }
    if b.len() > 1 {
        assert(line[n + 1 + 1] == b[1]);
        assert(simple(b[1], language));
    }
    around_a_token(line, a, m, n + 1, Context::Code, language);
    code_behind(line, b, n + 1, language);
}

/// In Rust a character between apostrophes is a literal, and no bracket.
pub proof fn character_literals_hide_their_character(a: Seq<char>, c: char, b: Seq<char>, m: int)
    requires
        plain_code(a, Some(Language::Rust)),
        plain_code(b, Some(Language::Rust)),
        c != '\'' && c != '\\',
        0 <= m <= a.len(),
        forall|i: int| 0 <= i < m ==> white(#[trigger] a[i]) || closes(a[i]),
        m < a.len() ==> !white(a[m]) && !closes(a[m]),
    ensures
        ({
            let line = a + seq!['\'', c, '\''] + b;
            let (classes, after) = lex(
                line,
                0,
                profile_of(Some(Language::Rust)),
                Context::Code,
            );
            &&& delimiters_of(classes) == brackets(a, a.len() as int) + brackets(
                b,
                b.len() as int,
            )
            &&& after is Code
            &&& leading_closers_of(classes) == brackets(a, m).len()
        }),
{
    let language = Some(Language::Rust);
    let line = a + seq!['\'', c, '\''] + b;
    let n = a.len() as int;
    assert(forall|j: int| 0 <= j < a.len() ==> line[j] == #[trigger] a[j]);
    assert(line[n] == '\'' && line[n + 1] == c && line[n + 2] == '\'');
    assert(forall|j: int| 0 <= j < b.len() ==> line[n + 3 + j] == #[trigger] b[j]);
    no_comment_at(line, n, language);
    assert(raw_opening(line, n) is None);
    around_a_token(line, a, m, n + 3, Context::Code, language);
    code_behind(line, b, n + 3, language);
}

} // verus!
