//! One line with its grapheme clusters located.
use crate::display::{caret_of, cluster_width, control_char_caret, grapheme_display_width};
use crate::text::{chars_of, slice_string};
use crate::unicode::{
    char_col_of, chars_before, chars_before_grows, cluster_is_subrange, col_is, concat,
    concat_length, grapheme_col_of, graphemes, graphemes_of, views, CharCol, GraphemeCol,
};
use vstd::prelude::*;
use vstd::utf8::{char_is_scalar, encode_scalar, encode_utf8};

verus! {

/// How many bytes a character takes in UTF-8.
pub open spec fn utf8_width(c: char) -> nat {
    if (c as u32) < 0x80 {
        1
    } else if (c as u32) < 0x800 {
        2
    } else if (c as u32) < 0x1_0000 {
        3
    } else {
        4
    }
}

/// How many bytes the first `n` characters take in UTF-8.
pub open spec fn bytes_before(t: Seq<char>, n: int) -> nat
    decreases n,
{
    if n <= 0 || n > t.len() {
        0
    } else {
        bytes_before(t, n - 1) + utf8_width(t[n - 1])
    }
}

/// How many cells a cluster takes at a display column: a tab fills up to the
/// next tab stop, a control character shows as two cells.
pub open spec fn cells_at(cluster: Seq<char>, column: int, tab_width: int) -> nat {
    if cluster == seq!['\t'] {
        (tab_width - column % tab_width) as nat
    } else if cluster.len() == 1 && caret_of(cluster[0]) is Some {
        2
    } else {
        cluster_width(cluster)
    }
}

/// The display column at which cluster `k` starts.
pub open spec fn display_of(parts: Seq<Seq<char>>, k: int, tab_width: int) -> nat
    decreases k,
{
    if k <= 0 || k > parts.len() {
        0
    } else {
        let before = display_of(parts, k - 1, tab_width);
        before + cells_at(parts[k - 1], before as int, tab_width)
    }
}

/// The most cells that the first `n` characters can take.
pub open spec fn cells_bound(t: Seq<char>, n: int, tab_width: int) -> nat
    decreases n,
{
    if n <= 0 || n > t.len() {
        0
    } else {
        cells_bound(t, n - 1, tab_width) + if t[n - 1] == '\t' && tab_width > 2 {
            tab_width as nat
        } else {
            2
        }
    }
}

/// A line of text with its grapheme clusters located.
#[derive(Debug)]
pub struct LineIndex {
    chars: Vec<char>,
    clusters: Vec<String>,
    starts: Vec<usize>,
}

impl LineIndex {
    /// The characters of the line.
    pub closed spec fn text(self) -> Seq<char> {
        self.chars@
    }

    /// The grapheme clusters of the line.
    pub open spec fn parts(self) -> Seq<Seq<char>> {
        graphemes_of(self.text())
    }

    /// The clusters make up the text, none is empty, and each starts where
    /// the index says.
    #[verifier::type_invariant]
    pub closed spec fn wf(self) -> bool {
        &&& views(self.clusters@) == self.parts()
        &&& concat(self.parts()) == self.text()
        &&& forall|k: int| 0 <= k < self.parts().len() ==> (#[trigger] self.parts()[k]).len() > 0
        &&& self.starts.len() == self.parts().len() + 1
        &&& forall|k: int|
            0 <= k <= self.parts().len() ==> #[trigger] self.starts@[k] == chars_before(
                self.parts(),
                k,
            )
        &&& bytes_before(self.text(), self.text().len() as int) <= usize::MAX
    }

    /// The display column of the cluster that holds character `c`.
    pub open spec fn display_column(self, c: nat, tab_width: int) -> nat {
        display_of(self.parts(), grapheme_col_of(self.text(), c) as int, tab_width)
    }

    /// A well-formed index speaks of clusters that make up its text.
    pub proof fn wf_is(self)
        requires
            self.wf(),
        ensures
            concat(self.parts()) == self.text(),
            forall|k: int|
                0 <= k < self.parts().len() ==> (#[trigger] self.parts()[k]).len() > 0,
            chars_before(self.parts(), self.parts().len() as int) == self.text().len(),
            self.parts().len() <= self.text().len() <= usize::MAX,
            bytes_before(self.text(), self.text().len() as int) <= usize::MAX,
    {
        concat_length(self.parts());
        chars_before_grows(self.parts(), 0, self.parts().len() as int);
        assert(self.chars.len() == self.chars@.len());
    }

    /// Locates the clusters of a line.
    pub fn from_text(text: &str) -> (res: LineIndex)
        ensures
            res.wf(),
            res.text() == text@,
    {
        let chars = chars_of(text);
        let clusters = graphemes(text);
        let ghost v = views(clusters@);
        let mut starts: Vec<usize> = Vec::new();
        starts.push(0);
        let mut at: usize = 0;
        let mut k: usize = 0;
        proof {
            concat_length(v);
        }
        while k < clusters.len()
            invariant
                k <= clusters.len(),
                v == views(clusters@),
                chars_before(v, v.len() as int) == chars.len(),
                at == chars_before(v, k as int),
                starts.len() == k + 1,
                forall|j: int| 0 <= j <= k ==> #[trigger] starts@[j] == chars_before(v, j),
            decreases clusters.len() - k,
        {
            proof {
                chars_before_grows(v, k + 1, v.len() as int);
                assert(v[k as int] == clusters@[k as int]@);
            }
            at += clusters[k].as_str().unicode_len();
            starts.push(at);
            k += 1;
        }
        let size: usize = text.as_bytes().len();
        proof {
            byte_length(text@);
            assert(size == bytes_before(text@, text@.len() as int));
            assert(forall|k: int|
                0 <= k < v.len() ==> (#[trigger] v[k]) == clusters@[k]@);
        }
        LineIndex { chars, clusters, starts }
    }

    /// How many characters the line has.
    pub fn len_chars(&self) -> (n: usize)
        ensures
            n == self.text().len(),
    {
        self.chars.len()
    }

    /// How many grapheme clusters the line has.
    pub fn grapheme_count(&self) -> (n: usize)
        ensures
            n == self.parts().len(),
    {
        proof {
            use_type_invariant(self);
        }
        self.clusters.len()
    }

    /// The character at a position.
    pub fn char_at(&self, i: usize) -> (c: char)
        requires
            i < self.text().len(),
        ensures
            c == self.text()[i as int],
    {
        self.chars[i]
    }

    /// The character column at which cluster column `col` starts.
    pub fn grapheme_to_char(&self, col: GraphemeCol) -> (res: CharCol)
        ensures
            res.0 == char_col_of(self.text(), col.0 as nat),
            res.0 <= self.text().len(),
            col.0 <= self.parts().len() ==> res.0 == chars_before(self.parts(), col.0 as int),
    {
        proof {
            use_type_invariant(self);
        }
        proof {
            self.wf_is();
        }
        if col.0 < self.starts.len() {
            proof {
                chars_before_grows(self.parts(), col.0 as int, self.parts().len() as int);
            }
            CharCol(self.starts[col.0])
        } else {
            CharCol(self.chars.len())
        }
    }

    /// The cluster column of a character column.
    pub fn char_to_grapheme(&self, col: CharCol) -> (res: GraphemeCol)
        ensures
            res.0 == grapheme_col_of(self.text(), col.0 as nat),
            res.0 <= self.parts().len(),
            chars_before(self.parts(), res.0 as int) <= col.0,
    {
        proof {
            use_type_invariant(self);
        }
        let mut k: usize = 0;
        while k < self.clusters.len()
            invariant
                self.wf(),
                k <= self.clusters.len() == self.parts().len(),
                chars_before(self.parts(), k as int) <= col.0,
            decreases self.clusters.len() - k,
        {
            proof {
                assert(self.starts@[k + 1] == chars_before(self.parts(), k + 1));
            }
            if self.starts[k + 1] > col.0 {
                proof {
                    col_is(self.parts(), k as int, col.0 as int);
                }
                return GraphemeCol(k);
            }
            k += 1;
        }
        GraphemeCol(k)
    }

    /// The first character of a cluster.
    pub fn grapheme_first_char(&self, col: GraphemeCol) -> (res: Option<char>)
        ensures
            match res {
                Some(c) => col.0 < self.parts().len() && c == self.parts()[col.0 as int][0],
                None => col.0 >= self.parts().len(),
            },
    {
        proof {
            use_type_invariant(self);
        }
        if col.0 < self.clusters.len() {
            proof {
                self.wf_is();
                assert(views(self.clusters@)[col.0 as int] == self.clusters@[col.0 as int]@);
            }
            Some(self.clusters[col.0].as_str().get_char(0))
        } else {
            None
        }
    }

    /// The text of a cluster.
    pub fn cluster(&self, k: usize) -> (res: &str)
        requires
            k < self.parts().len(),
        ensures
            res@ == self.parts()[k as int],
            res@.len() > 0,
            res@ == self.text().subrange(
                chars_before(self.parts(), k as int) as int,
                chars_before(self.parts(), k + 1) as int,
            ),
    {
        proof {
            use_type_invariant(self);
        }
        proof {
            assert(views(self.clusters@)[k as int] == self.clusters@[k as int]@);
            cluster_is_subrange(self.parts(), k as int);
        }
        self.clusters[k].as_str()
    }

    /// The characters `from..to`, cut off at the end of the line.
    pub fn slice_chars(&self, from: usize, to: usize) -> (s: String)
        ensures
            s@ == slice_of(self.text(), from as int, to as int),
    {
        let n: usize = self.chars.len();
        let stop: usize = if to <= n {
            to
        } else {
            n
        };
        let start: usize = if from <= stop {
            from
        } else {
            stop
        };
        let out = slice_string(&self.chars, start, stop);
        proof {
            assert(out@ =~= slice_of(self.text(), from as int, to as int));
        }
        out
    }

    /// The byte at which a character starts.
    pub fn char_to_byte(&self, c: usize) -> (b: usize)
        requires
            c <= self.text().len(),
        ensures
            b == bytes_before(self.text(), c as int),
    {
        proof {
            use_type_invariant(self);
        }
        let mut i: usize = 0;
        let mut b: usize = 0;
        while i < c
            invariant
                i <= c <= self.text().len(),
                b == bytes_before(self.text(), i as int),
                bytes_before(self.text(), self.text().len() as int) <= usize::MAX,
            decreases c - i,
        {
            proof {
                bytes_grow(self.text(), i + 1, self.text().len() as int);
            }
            b += char_bytes(self.chars[i]);
            i += 1;
        }
        b
    }

    /// Whether every character is printable ASCII.
    pub fn is_plain_ascii(&self) -> (res: bool)
        ensures
            res == plain_ascii(self.text()),
    {
        let mut i: usize = 0;
        while i < self.chars.len()
            invariant
                i <= self.chars.len(),
                forall|j: int| 0 <= j < i ==> ' ' <= #[trigger] self.chars@[j] <= '~',
            decreases self.chars.len() - i,
        {
            let c = self.chars[i];
            if c < ' ' || c > '~' {
                proof {
                    assert(!(' ' <= self.text()[i as int] <= '~'));
                }
                return false;
            }
            i += 1;
        }
        true
    }

    /// The cells that cluster `k` takes at a display column.
    pub fn cluster_cells(&self, k: usize, column: usize, tab_width: usize) -> (w: usize)
        requires
            k < self.parts().len(),
            tab_width > 0,
        ensures
            w == cells_at(self.parts()[k as int], column as int, tab_width as int),
            w <= 2 || w <= tab_width,
    {
        proof {
            use_type_invariant(self);
        }
        let cluster = self.cluster(k);
        if cluster.unicode_len() == 1 {
            let c = cluster.get_char(0);
            proof {
                assert(cluster@ =~= seq![cluster@[0]]);
                assert(seq!['\t'][0] == '\t');
            }
            if c == '\t' {
                return tab_width - column % tab_width;
            }
            if control_char_caret(c).is_some() {
                return 2;
            }
        } else {
            proof {
                assert(seq!['\t'].len() == 1);
            }
        }
        grapheme_display_width(cluster)
    }

    /// The display column at which cluster `k` starts.
    pub fn grapheme_to_display(&self, k: usize, tab_width: usize) -> (d: usize)
        requires
            k <= self.parts().len(),
            tab_width > 0,
            cells_bound(self.text(), self.text().len() as int, tab_width as int) <= usize::MAX,
        ensures
            d == display_of(self.parts(), k as int, tab_width as int),
    {
        proof {
            use_type_invariant(self);
        }
        let mut i: usize = 0;
        let mut d: usize = 0;
        while i < k
            invariant
                self.wf(),
                i <= k <= self.parts().len(),
                tab_width > 0,
                cells_bound(self.text(), self.text().len() as int, tab_width as int) <= usize::MAX,
                d == display_of(self.parts(), i as int, tab_width as int),
            decreases k - i,
        {
            proof {
                self.display_bounded(i + 1, tab_width as int);
            }
            d += self.cluster_cells(i, d, tab_width);
            i += 1;
        }
        d
    }

    /// The display column of the cluster that holds a character.
    pub fn char_to_display(&self, c: usize, tab_width: usize) -> (d: usize)
        requires
            tab_width > 0,
            cells_bound(self.text(), self.text().len() as int, tab_width as int) <= usize::MAX,
        ensures
            d == self.display_column(c as nat, tab_width as int),
    {
        proof {
            use_type_invariant(self);
        }
        let k = self.char_to_grapheme(CharCol(c));
        self.grapheme_to_display(k.0, tab_width)
    }

    /// The first character of the cluster that covers a display column; the
    /// end of the line behind its last cell.
    pub fn display_to_char(&self, column: usize, tab_width: usize) -> (c: usize)
        requires
            tab_width > 0,
            cells_bound(self.text(), self.text().len() as int, tab_width as int) <= usize::MAX,
        ensures
            c == chars_before(
                self.parts(),
                cluster_covering(self.parts(), 0, column as int, tab_width as int),
            ),
            c <= self.text().len(),
    {
        proof {
            use_type_invariant(self);
        }
        let mut i: usize = 0;
        let mut d: usize = 0;
        while i < self.clusters.len()
            invariant
                self.wf(),
                i <= self.clusters.len() == self.parts().len(),
                tab_width > 0,
                cells_bound(self.text(), self.text().len() as int, tab_width as int) <= usize::MAX,
                d == display_of(self.parts(), i as int, tab_width as int),
                cluster_covering(self.parts(), i as int, column as int, tab_width as int)
                    == cluster_covering(self.parts(), 0, column as int, tab_width as int),
            ensures
                i == cluster_covering(self.parts(), 0, column as int, tab_width as int),
                i <= self.parts().len(),
            decreases self.clusters.len() - i,
        {
            proof {
                self.display_bounded(i + 1, tab_width as int);
            }
            let next: usize = d + self.cluster_cells(i, d, tab_width);
            if next > column {
                break;
            }
            d = next;
            i += 1;
        }
        proof {
            self.wf_is();
            chars_before_grows(self.parts(), i as int, self.parts().len() as int);
        }
        self.starts[i]
    }

    /// Clusters take no more cells than their characters allow.
    pub proof fn display_bounded(self, k: int, tab_width: int)
        requires
            self.wf(),
            0 <= k <= self.parts().len(),
            tab_width > 0,
        ensures
            display_of(self.parts(), k, tab_width) <= cells_bound(
                self.text(),
                self.text().len() as int,
                tab_width,
            ),
    {
        self.wf_is();
        self.display_bounded_by_chars(k, tab_width);
        chars_before_grows(self.parts(), k, self.parts().len() as int);
        cells_bound_grows(
            self.text(),
            chars_before(self.parts(), k) as int,
            self.text().len() as int,
            tab_width,
        );
    }

    proof fn display_bounded_by_chars(self, k: int, tab_width: int)
        requires
            self.wf(),
            0 <= k <= self.parts().len(),
            tab_width > 0,
        ensures
            display_of(self.parts(), k, tab_width) <= cells_bound(
                self.text(),
                chars_before(self.parts(), k) as int,
                tab_width,
            ),
        decreases k,
    {
        self.wf_is();
        if k > 0 {
            self.display_bounded_by_chars(k - 1, tab_width);
            let from = chars_before(self.parts(), k - 1) as int;
            let to = chars_before(self.parts(), k) as int;
            chars_before_grows(self.parts(), k, self.parts().len() as int);
            cluster_is_subrange(self.parts(), k - 1);
            cells_bound_grows(self.text(), from + 1, to, tab_width);
            if self.parts()[k - 1] == seq!['\t'] {
                assert(self.text().subrange(from, to)[0] == '\t');
            }
        }
    }
}

/// The characters `from..to`, cut off at the end of the text.
pub open spec fn slice_of(t: Seq<char>, from: int, to: int) -> Seq<char> {
    let stop = if to <= t.len() {
        to
    } else {
        t.len() as int
    };
    if 0 <= from <= stop {
        t.subrange(from, stop)
    } else {
        Seq::empty()
    }
}

/// Every character is printable ASCII.
pub open spec fn plain_ascii(t: Seq<char>) -> bool {
    forall|j: int| 0 <= j < t.len() ==> ' ' <= #[trigger] t[j] <= '~'
}

/// The first cluster, from the `k`th on, that ends behind a display column.
pub open spec fn cluster_covering(
    parts: Seq<Seq<char>>,
    k: int,
    column: int,
    tab_width: int,
) -> int
    decreases parts.len() - k,
{
    if k < 0 || k >= parts.len() {
        parts.len() as int
    } else if display_of(parts, k + 1, tab_width) > column {
        k
    } else {
        cluster_covering(parts, k + 1, column, tab_width)
    }
}

pub proof fn cells_bound_grows(t: Seq<char>, i: int, j: int, tab_width: int)
    requires
        0 <= i <= j <= t.len(),
    ensures
        cells_bound(t, i, tab_width) + 2 * (j - i) <= cells_bound(t, j, tab_width),
    decreases j - i,
{
    if i < j {
        cells_bound_grows(t, i, j - 1, tab_width);
    }
}

pub proof fn bytes_grow(t: Seq<char>, i: int, j: int)
    requires
        0 <= i <= j <= t.len(),
    ensures
        bytes_before(t, i) + (j - i) <= bytes_before(t, j),
    decreases j - i,
{
    if i < j {
        bytes_grow(t, i, j - 1);
    }
}

proof fn bytes_from_front(t: Seq<char>, n: int)
    requires
        0 < n <= t.len(),
    ensures
        bytes_before(t, n) == utf8_width(t[0]) + bytes_before(t.drop_first(), n - 1),
    decreases n,
{
    if n > 1 {
        bytes_from_front(t, n - 1);
    } else {
        assert(bytes_before(t, 0) == 0);
    }
}

/// The UTF-8 encoding of a text is as long as its characters' widths say.
pub proof fn byte_length(t: Seq<char>)
    ensures
        encode_utf8(t).len() == bytes_before(t, t.len() as int),
    decreases t.len(),
{
    if t.len() > 0 {
        byte_length(t.drop_first());
        char_is_scalar(t[0]);
        assert(encode_scalar(t[0] as u32).len() == utf8_width(t[0]));
        bytes_from_front(t, t.len() as int);
    }
}

/// How many bytes a character takes in UTF-8.
pub fn char_bytes(c: char) -> (n: usize)
    ensures
        n == utf8_width(c),
{
    let code: u32 = c as u32;
    if code < 0x80 {
        1
    } else if code < 0x800 {
        2
    } else if code < 0x1_0000 {
        3
    } else {
        4
    }
}

} // verus!
