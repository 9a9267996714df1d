//! Where a line's text starts does not matter to what its tokens mean.
use crate::auto_indent::{
    block_at, char_literal_end, code_token, comment_end, delimiters_of, has_code_of, hashes_at,
    is_word_byte, leading_closers_of, lex, line_comment_at, only_closers, quoted_end,
    raw_opening, token_at, Class, Context, Delimiter, ProfileModel, Token,
};
use crate::indentation::is_indent;
use crate::text::{find_from, matches_at};
use vstd::prelude::*;

verus! {

/// From character `m` on, the second line is the first one, `d` further on.
pub open spec fn moved_by(a: Seq<char>, b: Seq<char>, m: int, d: int) -> bool {
    &&& 0 <= m <= a.len()
    &&& 0 <= m + d
    &&& b.len() == a.len() + d
    &&& forall|i: int| m <= i < a.len() ==> a[i] == #[trigger] b[i + d]
    &&& forall|i: int| m + d <= i < b.len() ==> #[trigger] b[i] == a[i - d]
}

proof fn match_moves(a: Seq<char>, b: Seq<char>, m: int, d: int, i: int, pat: Seq<char>)
    requires
        moved_by(a, b, m, d),
        m <= i,
    ensures
        matches_at(a, i, pat) == matches_at(b, i + d, pat),
{
    let n = pat.len() as int;
    if i + n <= a.len() {
        assert(a.subrange(i, i + n) =~= b.subrange(i + d, i + d + n));
    }
}

proof fn hashes_move(a: Seq<char>, b: Seq<char>, m: int, d: int, i: int)
    requires
        moved_by(a, b, m, d),
        m <= i,
    ensures
        hashes_at(a, i) == hashes_at(b, i + d),
    decreases a.len() - i,
{
    if i < a.len() && a[i] == '#' {
        assert(b[i + d] == '#');
        hashes_move(a, b, m, d, i + 1);
    } else if i < a.len() {
        assert(b[i + d] == a[i]);
    }
}

spec fn place_moved(x: Option<int>, y: Option<int>, d: int) -> bool {
    match (x, y) {
        (Some(x), Some(y)) => y == x + d,
        (None, None) => true,
        _ => false,
    }
}

proof fn quote_moves(a: Seq<char>, b: Seq<char>, m: int, d: int, i: int, quote: char, escaped: bool)
    requires
        moved_by(a, b, m, d),
        m <= i,
    ensures
        place_moved(quoted_end(a, i, quote, escaped), quoted_end(b, i + d, quote, escaped), d),
    decreases a.len() - i,
{
    if i < a.len() {
        assert(b[i + d] == a[i]);
        quote_moves(a, b, m, d, i + 1, quote, false);
        quote_moves(a, b, m, d, i + 1, quote, true);
    }
}

proof fn find_moves(a: Seq<char>, b: Seq<char>, m: int, d: int, i: int, pat: Seq<char>)
    requires
        moved_by(a, b, m, d),
        m <= i,
    ensures
        place_moved(find_from(a, i, pat), find_from(b, i + d, pat), d),
    decreases a.len() - i,
{
    match_moves(a, b, m, d, i, pat);
    if i + pat.len() <= a.len() && !matches_at(a, i, pat) && i < a.len() {
        find_moves(a, b, m, d, i + 1, pat);
    }
}

proof fn comment_moves(
    a: Seq<char>,
    b: Seq<char>,
    m: int,
    d: int,
    i: int,
    start: Seq<char>,
    end: Seq<char>,
    depth: nat,
)
    requires
        moved_by(a, b, m, d),
        m <= i,
    ensures
        comment_end(b, i + d, start, end, depth) == (
            comment_end(a, i, start, end, depth).0 + d,
            comment_end(a, i, start, end, depth).1,
        ),
        comment_end(a, i, start, end, depth).0 >= i,
        i < a.len() && depth > 0 && start.len() > 0 && end.len() > 0 ==> comment_end(
            a,
            i,
            start,
            end,
            depth,
        ).0 > i,
    decreases a.len() - i,
{
    if i < a.len() && depth > 0 && start.len() > 0 && end.len() > 0 {
        match_moves(a, b, m, d, i, start);
        match_moves(a, b, m, d, i, end);
        if matches_at(a, i, end) {
            comment_moves(a, b, m, d, i + end.len(), start, end, (depth - 1) as nat);
        } else if matches_at(a, i, start) {
            comment_moves(a, b, m, d, i + start.len(), start, end, depth + 1);
        } else {
            comment_moves(a, b, m, d, i + 1, start, end, depth);
        }
    }
}

proof fn block_moves(
    a: Seq<char>,
    b: Seq<char>,
    m: int,
    d: int,
    i: int,
    blocks: Seq<(Seq<char>, Seq<char>)>,
    k: int,
)
    requires
        moved_by(a, b, m, d),
        m <= i,
    ensures
        block_at(blocks, k, a, i) == block_at(blocks, k, b, i + d),
    decreases blocks.len() - k,
{
    if 0 <= k < blocks.len() {
        match_moves(a, b, m, d, i, blocks[k].0);
        block_moves(a, b, m, d, i, blocks, k + 1);
    }
}

proof fn line_comment_moves(
    a: Seq<char>,
    b: Seq<char>,
    m: int,
    d: int,
    i: int,
    markers: Seq<Seq<char>>,
)
    requires
        moved_by(a, b, m, d),
        m <= i,
    ensures
        line_comment_at(markers, a, i) == line_comment_at(markers, b, i + d),
{
    assert forall|k: int| 0 <= k < markers.len() implies matches_at(a, i, #[trigger] markers[k])
        == matches_at(b, i + d, markers[k]) by {
        match_moves(a, b, m, d, i, markers[k]);
    }
    if line_comment_at(markers, a, i) {
        let k = choose|k: int| 0 <= k < markers.len() && matches_at(a, i, #[trigger] markers[k]);
        assert(matches_at(b, i + d, markers[k]));
    }
    if line_comment_at(markers, b, i + d) {
        let k = choose|k: int|
            0 <= k < markers.len() && matches_at(b, i + d, #[trigger] markers[k]);
        assert(matches_at(a, i, markers[k]));
    }
}

/// No word ends directly before either place.
pub open spec fn no_word_before(a: Seq<char>, b: Seq<char>, m: int, d: int, i: int) -> bool {
    i > m || ((i == 0 || !is_word_byte(a[i - 1])) && (i + d == 0 || !is_word_byte(b[i + d - 1])))
}

proof fn raw_opening_moves(a: Seq<char>, b: Seq<char>, m: int, d: int, i: int)
    requires
        moved_by(a, b, m, d),
        m <= i < a.len(),
        no_word_before(a, b, m, d, i),
    ensures
        raw_opening(a, i) == raw_opening(b, i + d),
{
    if i > m {
        assert(b[i - 1 + d] == a[i - 1]);
    }
    assert(b[i + d] == a[i]);
    let r = if a[i] == 'b' || a[i] == 'c' {
        i + 1
    } else {
        i
    };
    if r < a.len() {
        assert(b[r + d] == a[r]);
    }
    hashes_move(a, b, m, d, r + 1);
    let q = r + 1 + hashes_at(a, r + 1);
    if q < a.len() {
        assert(b[q + d] == a[q]);
    }
}

proof fn literal_moves(a: Seq<char>, b: Seq<char>, m: int, d: int, i: int)
    requires
        moved_by(a, b, m, d),
        m <= i < a.len(),
    ensures
        place_moved(char_literal_end(a, i), char_literal_end(b, i + d), d),
{
    if i + 1 < a.len() {
        assert(b[i + 1 + d] == a[i + 1]);
    }
    if i + 2 < a.len() {
        assert(b[i + 2 + d] == a[i + 2]);
    }
    quote_moves(a, b, m, d, i + 1, '\'', false);
}

proof fn code_token_moves(a: Seq<char>, b: Seq<char>, m: int, d: int, i: int, p: ProfileModel)
    requires
        moved_by(a, b, m, d),
        m <= i < a.len(),
        no_word_before(a, b, m, d, i),
    ensures
        code_token(b, i + d, p) == (Token {
            end: code_token(a, i, p).end + d,
            ..code_token(a, i, p)
        }),
{
    assert(b[i + d] == a[i]);
    block_moves(a, b, m, d, i, p.block_comments, 0);
    line_comment_moves(a, b, m, d, i, p.line_comments);
    raw_opening_moves(a, b, m, d, i);
    match_moves(a, b, m, d, i, "\"\"\""@);
    match_moves(a, b, m, d, i, "'''"@);
    match_moves(a, b, m, d, i, "[["@);
    literal_moves(a, b, m, d, i);
    quote_moves(a, b, m, d, i + 1, a[i], false);
}

/// From its `m`th character on, a line has the tokens of the other.
pub proof fn lexing_moves(
    a: Seq<char>,
    b: Seq<char>,
    m: int,
    d: int,
    i: int,
    p: ProfileModel,
    ctx: Context,
)
    requires
        moved_by(a, b, m, d),
        m <= i,
        i < a.len() ==> no_word_before(a, b, m, d, i),
    ensures
        lex(b, i + d, p, ctx) == lex(a, i, p, ctx),
    decreases a.len() - i,
{
    if i < a.len() {
        match ctx {
            Context::Code => code_token_moves(a, b, m, d, i, p),
            Context::Comment { start, end, depth } => comment_moves(
                a,
                b,
                m,
                d,
                i,
                start,
                end,
                depth,
            ),
            Context::Literal { end } => find_moves(a, b, m, d, i, end),
        }
        let t = token_at(a, i, p, ctx);
        let u = token_at(b, i + d, p, ctx);
        assert(u.end == t.end + d && u.class == t.class && u.context == t.context);
        if i < t.end <= a.len() {
            lexing_moves(a, b, m, d, t.end, p, t.context);
        }
    }
}

/// Blanks only.
pub open spec fn blank_classes(n: int) -> Seq<Class> {
    Seq::new(n as nat, |i: int| Class::Blank)
}

/// The tokens of the blanks that lead a line.
pub proof fn leading_blanks(a: Seq<char>, m: int, i: int, p: ProfileModel)
    requires
        0 <= i <= m <= a.len(),
        forall|j: int| 0 <= j < m ==> is_indent(#[trigger] a[j]),
    ensures
        lex(a, i, p, Context::Code) == (
            blank_classes(m - i) + lex(a, m, p, Context::Code).0,
            lex(a, m, p, Context::Code).1,
        ),
    decreases m - i,
{
    let rest = lex(a, m, p, Context::Code).0;
    if i < m {
        leading_blanks(a, m, i + 1, p);
        assert(is_indent(a[i]));
        let t = code_token(a, i, p);
        assert(t.end == i + 1 && t.class is Blank);
        assert(seq![Class::Blank] + (blank_classes(m - i - 1) + rest) =~= blank_classes(m - i)
            + rest);
    } else {
        assert(blank_classes(0) + rest =~= rest);
    }
}

/// Blanks before tokens change nothing of what the tokens come to.
pub proof fn blanks_mean_nothing(n: int, rest: Seq<Class>)
    requires
        n >= 0,
    ensures
        delimiters_of(blank_classes(n) + rest) == delimiters_of(rest),
        only_closers(blank_classes(n) + rest) == only_closers(rest),
        leading_closers_of(blank_classes(n) + rest) == leading_closers_of(rest),
        has_code_of(blank_classes(n) + rest) == has_code_of(rest),
    decreases rest.len(), n,
{
    let all = blank_classes(n) + rest;
    assert(forall|k: int| 0 <= k < rest.len() ==> all[n + k] == #[trigger] rest[k]);
    assert(forall|k: int| 0 <= k < n ==> #[trigger] all[k] == Class::Blank);
    if only_closers(all) {
        assert forall|k: int| 0 <= k < rest.len() implies match #[trigger] rest[k] {
            Class::Blank => true,
            Class::Delimiter(Delimiter::Close(c)) => true,
            _ => false,
        } by {
            assert(all[n + k] == rest[k]);
        }
    }
    if only_closers(rest) {
        assert forall|k: int| 0 <= k < all.len() implies match #[trigger] all[k] {
            Class::Blank => true,
            Class::Delimiter(Delimiter::Close(c)) => true,
            _ => false,
        } by {
            if k >= n {
                assert(all[k] == rest[k - n]);
            }
        }
    }
    if has_code_of(all) {
        let k = choose|k: int| 0 <= k < all.len() && !(#[trigger] all[k] is Blank);
        assert(all[k] == rest[k - n]);
    }
    if has_code_of(rest) {
        let k = choose|k: int| 0 <= k < rest.len() && !(#[trigger] rest[k] is Blank);
        assert(all[n + k] == rest[k]);
    }
    if rest.len() > 0 {
        blanks_mean_nothing(n, rest.drop_last());
        assert(all.drop_last() =~= blank_classes(n) + rest.drop_last());
        assert(all.last() == rest.last());
    } else if n > 0 {
        blanks_mean_nothing(n - 1, rest);
        assert(all.drop_last() =~= blank_classes(n - 1) + rest);
        assert(all.last() == Class::Blank);
    } else {
        assert(all =~= rest);
    }
}

/// A comment whose marks do not start with a blank.
pub open spec fn marked(start: Seq<char>, end: Seq<char>) -> bool {
    start.len() > 0 && end.len() > 0 && !is_indent(start[0]) && !is_indent(end[0])
}

pub open spec fn marked_context(ctx: Context) -> bool {
    match ctx {
        Context::Comment { start, end, depth } => marked(start, end) && depth > 0,
        _ => true,
    }
}

pub open spec fn marked_profile(p: ProfileModel) -> bool {
    forall|k: int|
        0 <= k < p.block_comments.len() ==> marked(
            (#[trigger] p.block_comments[k]).0,
            p.block_comments[k].1,
        )
}

proof fn block_is_marked(p: ProfileModel, k: int, cs: Seq<char>, i: int)
    requires
        marked_profile(p),
        0 <= k,
    ensures
        block_at(p.block_comments, k, cs, i) matches Some(b) ==> marked(b.0, b.1),
    decreases p.block_comments.len() - k,
{
    if k < p.block_comments.len() {
        block_is_marked(p, k + 1, cs, i);
    }
}

/// Lexing leaves no other comments open than the profile has.
pub proof fn lexing_keeps_marks(a: Seq<char>, i: int, p: ProfileModel, ctx: Context)
    requires
        marked_profile(p),
        marked_context(ctx),
    ensures
        marked_context(lex(a, i, p, ctx).1),
    decreases a.len() - i,
{
    if i < a.len() {
        block_is_marked(p, 0, a, i);
        let t = token_at(a, i, p, ctx);
        if !(t.end <= i || t.end > a.len()) {
            lexing_keeps_marks(a, t.end, p, t.context);
        }
    }
}

/// Blanks inside a comment are passed over.
pub proof fn blanks_in_comments(
    a: Seq<char>,
    m: int,
    i: int,
    start: Seq<char>,
    end: Seq<char>,
    depth: nat,
)
    requires
        0 <= i <= m <= a.len(),
        forall|j: int| 0 <= j < m ==> is_indent(#[trigger] a[j]),
        marked(start, end),
        depth > 0,
    ensures
        comment_end(a, i, start, end, depth) == comment_end(a, m, start, end, depth),
    decreases m - i,
{
    if i < m {
        assert(is_indent(a[i]));
        if matches_at(a, i, end) {
            assert(a.subrange(i, i + end.len())[0] == a[i]);
        }
        if matches_at(a, i, start) {
            assert(a.subrange(i, i + start.len())[0] == a[i]);
        }
        blanks_in_comments(a, m, i + 1, start, end, depth);
    }
}

/// What a line comes to does not depend on the blanks that lead it: neither
/// its delimiters, nor what it leaves open, nor, where it has more than
/// blanks, its leading closers and whether it has code.
pub proof fn indentation_means_nothing(
    lead: Seq<char>,
    other: Seq<char>,
    rest: Seq<char>,
    p: ProfileModel,
    ctx: Context,
)
    requires
        !(ctx is Literal),
        marked_context(ctx),
        forall|j: int| 0 <= j < lead.len() ==> is_indent(#[trigger] lead[j]),
        forall|j: int| 0 <= j < other.len() ==> is_indent(#[trigger] other[j]),
    ensures
        ({
            let a = lex(lead + rest, 0, p, ctx);
            let b = lex(other + rest, 0, p, ctx);
            &&& delimiters_of(a.0) == delimiters_of(b.0)
            &&& a.1 == b.1
            &&& rest.len() > 0 ==> leading_closers_of(a.0) == leading_closers_of(b.0)
                && has_code_of(a.0) == has_code_of(b.0)
        }),
{
    let a = lead + rest;
    let b = other + rest;
    let m = lead.len() as int;
    let d = other.len() - lead.len();
    assert(forall|j: int| 0 <= j < m ==> a[j] == #[trigger] lead[j]);
    assert(forall|j: int| 0 <= j < other.len() ==> b[j] == #[trigger] other[j]);
    assert forall|j: int| 0 <= j < m implies is_indent(#[trigger] a[j]) by {
        assert(is_indent(lead[j]));
    }
    assert forall|j: int| 0 <= j < other.len() implies is_indent(#[trigger] b[j]) by {
        assert(is_indent(other[j]));
    }
    assert(moved_by(a, b, m, d));
    assert(no_word_before(a, b, m, d, m)) by {
        if m > 0 {
            assert(is_indent(a[m - 1]));
        }
        if other.len() > 0 {
            assert(is_indent(b[m + d - 1]));
        }
    }
    match ctx {
        Context::Code => {
            leading_blanks(a, m, 0, p);
            leading_blanks(b, m + d, 0, p);
            lexing_moves(a, b, m, d, m, p, ctx);
            blanks_mean_nothing(m, lex(a, m, p, ctx).0);
            blanks_mean_nothing(m + d, lex(a, m, p, ctx).0);
        },
        Context::Comment { start, end, depth } => {
            blanks_in_comments(a, m, 0, start, end, depth);
            blanks_in_comments(b, m + d, 0, start, end, depth);
            comment_moves(a, b, m, d, m, start, end, depth);
            let t = token_at(a, 0, p, ctx);
            let u = token_at(b, 0, p, ctx);
            if rest.len() > 0 {
                assert(u.end == t.end + d && t.end > m);
                if t.end <= a.len() {
                    lexing_moves(a, b, m, d, t.end, p, t.context);
                }
                assert(lex(a, 0, p, ctx) == lex(b, 0, p, ctx));
            } else {
                only_a_comment(a, p, start, end, depth);
                only_a_comment(b, p, start, end, depth);
            }
        },
        Context::Literal { end } => {},
    }
}

/// A line of blanks inside a comment is comment.
pub proof fn only_a_comment(
    a: Seq<char>,
    p: ProfileModel,
    start: Seq<char>,
    end: Seq<char>,
    depth: nat,
)
    requires
        comment_end(a, 0, start, end, depth) == comment_end(a, a.len() as int, start, end, depth),
        marked(start, end),
        depth > 0,
    ensures
        ({
            let ctx = Context::Comment { start, end, depth };
            &&& delimiters_of(lex(a, 0, p, ctx).0) == Seq::<Delimiter>::empty()
            &&& lex(a, 0, p, ctx).1 == ctx
            &&& leading_closers_of(lex(a, 0, p, ctx).0) == 0
        }),
{
    let ctx = Context::Comment { start, end, depth };
    if a.len() > 0 {
        let t = token_at(a, 0, p, ctx);
        assert(t.end == a.len() && t.context == ctx);
        assert(lex(a, t.end, p, ctx).0 =~= Seq::<Class>::empty());
        let classes = lex(a, 0, p, ctx).0;
        assert(classes =~= seq![Class::Text]);
        assert(classes.drop_last() =~= Seq::<Class>::empty());
        assert(classes[0] is Text);
        assert(!only_closers(classes));
        assert(leading_closers_of(Seq::<Class>::empty()) == 0);
    }
    assert(delimiters_of(Seq::<Class>::empty()) =~= Seq::<Delimiter>::empty());
}

} // verus!
