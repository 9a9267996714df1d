//! Columns counted in characters and in grapheme clusters.
use unicode_segmentation::UnicodeSegmentation;
use vstd::prelude::*;

verus! {

/// A column counted in grapheme clusters, as the cursor sees it.
#[derive(Debug, Clone, Copy, PartialEq, Eq, PartialOrd, Ord, Hash, Structural)]
pub struct GraphemeCol(pub usize);

/// A column counted in characters, as the text stores it.
#[derive(Debug, Clone, Copy, PartialEq, Eq, PartialOrd, Ord, Hash, Structural)]
pub struct CharCol(pub usize);

/// The extended grapheme clusters of a text, in order.
pub uninterp spec fn graphemes_of(text: Seq<char>) -> Seq<Seq<char>>;

/// Whether a character is alphabetic or numeric.
pub uninterp spec fn alphanumeric(c: char) -> bool;

/// Whether a character is white space.
pub uninterp spec fn whitespace(c: char) -> bool;

/// The characters of a list of strings.
pub open spec fn views(list: Seq<String>) -> Seq<Seq<char>> {
    list.map_values(|s: String| s@)
}

/// The texts of a list, one after the other.
pub open spec fn concat(parts: Seq<Seq<char>>) -> Seq<char>
    decreases parts.len(),
{
    if parts.len() == 0 {
        Seq::empty()
    } else {
        concat(parts.drop_last()) + parts.last()
    }
}

/// `UnicodeSegmentation::graphemes` with extended clusters: it cuts the text
/// into non-empty clusters that, put together again, are the text. Where the
/// cuts fall is the Unicode rule that the name stands for.
#[verifier::external_body]
pub(crate) fn graphemes(text: &str) -> (out: Vec<String>)
    ensures
        views(out@) == graphemes_of(text@),
        concat(views(out@)) == text@,
        forall|k: int| 0 <= k < out.len() ==> (#[trigger] out@[k])@.len() > 0,
{
    text.graphemes(true).map(|g| g.to_owned()).collect()
}

/// `char::is_alphanumeric`, by the Unicode tables that the name stands for.
#[verifier::external_body]
pub(crate) fn is_alphanumeric(c: char) -> (res: bool)
    ensures
        res == alphanumeric(c),
{
    c.is_alphanumeric()
}

/// `char::is_whitespace`, by the Unicode property that the name stands for.
/// The blank, the tab and the line feed have that property.
#[verifier::external_body]
pub(crate) fn is_whitespace(c: char) -> (res: bool)
    ensures
        res == whitespace(c),
        c == ' ' || c == '\t' || c == '\n' ==> res,
{
    c.is_whitespace()
}

/// How many characters the first `k` clusters hold.
pub open spec fn chars_before(parts: Seq<Seq<char>>, k: int) -> nat
    decreases k,
{
    if k <= 0 || k > parts.len() {
        0
    } else {
        chars_before(parts, k - 1) + parts[k - 1].len()
    }
}

/// The character column at which cluster `k` starts; the text's length from
/// its last cluster on.
pub open spec fn char_col_of(text: Seq<char>, k: nat) -> nat {
    let parts = graphemes_of(text);
    if k <= parts.len() {
        chars_before(parts, k as int)
    } else {
        text.len()
    }
}

/// How many of the first `k` clusters end at or before character `c`.
pub open spec fn clusters_within(parts: Seq<Seq<char>>, k: int, c: int) -> nat
    decreases k,
{
    if k <= 0 || k > parts.len() {
        0
    } else if chars_before(parts, k) <= c {
        k as nat
    } else {
        clusters_within(parts, k - 1, c)
    }
}

/// The cluster column of character `c`: the number of clusters that end at or
/// before it.
pub open spec fn grapheme_col_of(text: Seq<char>, c: nat) -> nat {
    clusters_within(graphemes_of(text), graphemes_of(text).len() as int, c as int)
}

/// The clusters together are as long as the text they make up.
pub proof fn concat_length(parts: Seq<Seq<char>>)
    ensures
        concat(parts).len() == chars_before(parts, parts.len() as int),
    decreases parts.len(),
{
    if parts.len() > 0 {
        concat_length(parts.drop_last());
        prefix_length(parts, parts.drop_last(), parts.len() - 1);
    }
}

/// A prefix sum speaks only of the clusters in the prefix.
pub proof fn prefix_length(a: Seq<Seq<char>>, b: Seq<Seq<char>>, k: int)
    requires
        0 <= k <= a.len(),
        k <= b.len(),
        forall|j: int| 0 <= j < k ==> a[j] == b[j],
    ensures
        chars_before(a, k) == chars_before(b, k),
    decreases k,
{
    if k > 0 {
        prefix_length(a, b, k - 1);
    }
}

/// Prefix sums grow, by at least one where no cluster is empty.
pub proof fn chars_before_grows(parts: Seq<Seq<char>>, i: int, j: int)
    requires
        0 <= i <= j <= parts.len(),
    ensures
        chars_before(parts, i) <= chars_before(parts, j),
        (forall|k: int| 0 <= k < parts.len() ==> (#[trigger] parts[k]).len() > 0) ==> chars_before(
            parts,
            i,
        ) + (j - i) <= chars_before(parts, j),
    decreases j - i,
{
    if i < j {
        chars_before_grows(parts, i, j - 1);
    }
}

/// Cluster `k` of a text is the stretch between its prefix sums.
pub proof fn cluster_is_subrange(parts: Seq<Seq<char>>, k: int)
    requires
        0 <= k < parts.len(),
    ensures
        chars_before(parts, k) + parts[k].len() <= concat(parts).len(),
        concat(parts).subrange(
            chars_before(parts, k) as int,
            chars_before(parts, k + 1) as int,
        ) == parts[k],
    decreases parts.len(),
{
    concat_length(parts);
    let init = parts.drop_last();
    concat_length(init);
    prefix_length(parts, init, parts.len() - 1);
    if k == parts.len() - 1 {
        assert(concat(parts).subrange(
            chars_before(parts, k) as int,
            chars_before(parts, k + 1) as int,
        ) =~= parts[k]);
    } else {
        cluster_is_subrange(init, k);
        prefix_length(parts, init, k);
        prefix_length(parts, init, k + 1);
        chars_before_grows(parts, k + 1, parts.len() as int);
        assert(concat(parts).subrange(
            chars_before(parts, k) as int,
            chars_before(parts, k + 1) as int,
        ) =~= parts[k]);
    }
}

/// What `clusters_within` counts: the clusters that end at or before `c`.
pub proof fn clusters_within_is(parts: Seq<Seq<char>>, k: int, c: int)
    requires
        0 <= k <= parts.len(),
        0 <= c,
    ensures
        clusters_within(parts, k, c) <= k,
        chars_before(parts, clusters_within(parts, k, c) as int) <= c,
        forall|j: int|
            clusters_within(parts, k, c) < j <= k ==> #[trigger] chars_before(parts, j) > c,
    decreases k,
{
    if k > 0 && chars_before(parts, k) > c {
        clusters_within_is(parts, k - 1, c);
    }
}

/// How many grapheme clusters the text has.
pub fn grapheme_count(text: &str) -> (n: usize)
    ensures
        n == graphemes_of(text@).len(),
        n <= text@.len(),
{
    let parts = graphemes(text);
    proof {
        let v = views(parts@);
        concat_length(v);
        assert(forall|k: int| 0 <= k < v.len() ==> (#[trigger] v[k]) == parts@[k]@);
        chars_before_grows(v, 0, v.len() as int);
    }
    parts.len()
}

/// The character column at which cluster column `col` starts.
pub fn grapheme_to_char_col(text: &str, col: GraphemeCol) -> (res: CharCol)
    ensures
        res.0 == char_col_of(text@, col.0 as nat),
        res.0 <= text@.len(),
{
    let parts = graphemes(text);
    let ghost v = views(parts@);
    let total: usize = text.unicode_len();
    let mut k: usize = 0;
    let mut at: usize = 0;
    proof {
        concat_length(v);
    }
    while k < parts.len() && k < col.0
        invariant
            k <= parts.len(),
            k <= col.0,
            v == views(parts@),
            chars_before(v, v.len() as int) == total,
            at == chars_before(v, k as int),
            at <= total,
        decreases parts.len() - k,
    {
        proof {
            chars_before_grows(v, k + 1, v.len() as int);
            assert(v[k as int] == parts@[k as int]@);
        }
        at += parts[k].as_str().unicode_len();
        k += 1;
    }
    CharCol(at)
}

/// The cluster column of character column `col`.
pub fn char_to_grapheme_col(text: &str, col: CharCol) -> (res: GraphemeCol)
    ensures
        res.0 == grapheme_col_of(text@, col.0 as nat),
        res.0 <= graphemes_of(text@).len(),
{
    let parts = graphemes(text);
    let ghost v = views(parts@);
    let total: usize = text.unicode_len();
    let mut k: usize = 0;
    let mut at: usize = 0;
    proof {
        concat_length(v);
    }
    while k < parts.len()
        invariant
            k <= parts.len(),
            v == views(parts@),
            v == graphemes_of(text@),
            chars_before(v, v.len() as int) == total,
            at == chars_before(v, k as int),
            at <= total,
            at <= col.0,
        decreases parts.len() - k,
    {
        proof {
            chars_before_grows(v, k + 1, v.len() as int);
            assert(v[k as int] == parts@[k as int]@);
        }
        let next: usize = at + parts[k].as_str().unicode_len();
        if next > col.0 {
            proof {
                col_is(v, k as int, col.0 as int);
            }
            return GraphemeCol(k);
        }
        at = next;
        k += 1;
    }
    GraphemeCol(k)
}

/// Where cluster `k` starts at or before `c` and ends after it, `k` clusters
/// end at or before `c`.
pub proof fn col_is(parts: Seq<Seq<char>>, k: int, c: int)
    requires
        0 <= k < parts.len(),
        chars_before(parts, k) <= c < chars_before(parts, k + 1),
    ensures
        clusters_within(parts, parts.len() as int, c) == k,
{
    clusters_within_is(parts, parts.len() as int, c);
    let w = clusters_within(parts, parts.len() as int, c) as int;
    if w < k {
        assert(chars_before(parts, k) > c);
    } else if w > k {
        chars_before_grows(parts, k + 1, w);
    }
}

/// Converting a cluster column to characters and back gives the column again.
pub proof fn columns_round_trip(text: Seq<char>, k: nat)
    requires
        concat(graphemes_of(text)) == text,
        forall|j: int| 0 <= j < graphemes_of(text).len() ==> (#[trigger] graphemes_of(text)[j]).len()
            > 0,
        k <= graphemes_of(text).len(),
    ensures
        grapheme_col_of(text, char_col_of(text, k)) == k,
{
    let parts = graphemes_of(text);
    clusters_within_is(parts, parts.len() as int, chars_before(parts, k as int) as int);
    let w = grapheme_col_of(text, char_col_of(text, k)) as int;
    if w < k {
        chars_before_grows(parts, w + 1, k as int);
        assert(chars_before(parts, k as int) > chars_before(parts, k as int));
    } else if w > k {
        chars_before_grows(parts, k as int, w);
    }
}

} // verus!
