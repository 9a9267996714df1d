//! An index over a line's highlights that answers range queries.
use crate::syntax::HighlightGroup;
use std::ops::Range;
use vstd::prelude::*;

verus! {

/// A stretch of a line and the group that highlighting assigns to it.
pub type Highlight = (Range<usize>, HighlightGroup);

/// A highlight shows something of a range: it is not empty and overlaps it.
pub open spec fn hit(h: Highlight, from: int, to: int) -> bool {
    h.0.start < h.0.end && h.0.start < to && h.0.end > from
}

/// Those of the first `k` highlights that show something of a range, in order.
pub open spec fn hits(highlights: Seq<Highlight>, k: int, from: int, to: int) -> Seq<Highlight>
    decreases k,
{
    if k <= 0 || k > highlights.len() {
        Seq::empty()
    } else {
        let before = hits(highlights, k - 1, from, to);
        if hit(highlights[k - 1], from, to) {
            before.push(highlights[k - 1])
        } else {
            before
        }
    }
}

/// Pairs are ordered by their first part, then by their second.
pub open spec fn pair_le(a: (usize, usize), b: (usize, usize)) -> bool {
    a.0 < b.0 || (a.0 == b.0 && a.1 <= b.1)
}

/// `<[T]>::sort_unstable` on pairs of integers: the same pairs, in
/// lexicographic order.
#[verifier::external_body]
fn sort_pairs(v: &mut Vec<(usize, usize)>)
    ensures
        final(v)@.to_multiset() == old(v)@.to_multiset(),
        final(v).len() == old(v).len(),
        forall|i: int, j: int| 0 <= i <= j < final(v).len() ==> pair_le(final(v)@[i], final(v)@[j]),
{
    v.sort_unstable();
}

#[derive(Debug)]
struct IntervalNode {
    center: usize,
    /// Ordinals of the highlights crossing `center`, by their starts.
    by_start: Vec<usize>,
    /// The same ordinals, by their ends, the last end first.
    by_end: Vec<usize>,
    left: Option<Box<IntervalNode>>,
    right: Option<Box<IntervalNode>>,
}

/// The node or a node below it holds the ordinal.
spec fn holds(node: IntervalNode, i: usize) -> bool
    decreases node,
{
    ||| node.by_start@.contains(i)
    ||| match node.left {
        Some(left) => holds(*left, i),
        None => false,
    }
    ||| match node.right {
        Some(right) => holds(*right, i),
        None => false,
    }
}

spec fn option_holds(node: Option<Box<IntervalNode>>, i: usize) -> bool {
    match node {
        Some(node) => holds(*node, i),
        None => false,
    }
}

/// Highlights to the left of a node's center end there or before; those to
/// the right start behind it; the others cross it and are listed in the order
/// of their starts and of their ends.
spec fn tree_wf(node: IntervalNode, hs: Seq<Highlight>) -> bool
    decreases node,
{
    &&& forall|i: usize| #[trigger] node.by_start@.contains(i) <==> node.by_end@.contains(i)
    &&& forall|k: int| 0 <= k < node.by_start.len() ==> crosses(#[trigger] node.by_start@[k], node.center, hs)
    &&& forall|k: int| 0 <= k < node.by_end.len() ==> crosses(#[trigger] node.by_end@[k], node.center, hs)
    &&& forall|j: int, k: int|
        0 <= j <= k < node.by_start.len() ==> hs[node.by_start@[j] as int].0.start
            <= hs[node.by_start@[k] as int].0.start
    &&& forall|j: int, k: int|
        0 <= j <= k < node.by_end.len() ==> hs[node.by_end@[j] as int].0.end
            >= hs[node.by_end@[k] as int].0.end
    &&& match node.left {
        Some(left) => tree_wf(*left, hs) && forall|i: usize| #[trigger]
            holds(*left, i) ==> i < hs.len() && hs[i as int].0.end <= node.center,
        None => true,
    }
    &&& match node.right {
        Some(right) => tree_wf(*right, hs) && forall|i: usize| #[trigger]
            holds(*right, i) ==> i < hs.len() && hs[i as int].0.start > node.center,
        None => true,
    }
}

spec fn crosses(i: usize, center: usize, hs: Seq<Highlight>) -> bool {
    i < hs.len() && hs[i as int].0.start <= center < hs[i as int].0.end
}

/// A sequence and its rearrangement hold the same values.
proof fn same_values<T>(a: Seq<T>, b: Seq<T>)
    requires
        a.to_multiset() == b.to_multiset(),
    ensures
        forall|x: T| a.contains(x) <==> b.contains(x),
{
    broadcast use vstd::seq_lib::group_to_multiset_ensures;

    assert forall|x: T| a.contains(x) <==> b.contains(x) by {
        assert(a.contains(x) <==> a.to_multiset().count(x) > 0);
        assert(b.contains(x) <==> b.to_multiset().count(x) > 0);
    }
}

/// The ordinals, by the starts (or by the ends) of their highlights.
fn ordered(hs: &Vec<Highlight>, ordinals: &Vec<usize>, ends: bool) -> (out: Vec<usize>)
    requires
        forall|k: int| 0 <= k < ordinals.len() ==> (#[trigger] ordinals@[k]) < hs.len(),
    ensures
        out.len() == ordinals.len(),
        forall|i: usize| #[trigger] out@.contains(i) <==> ordinals@.contains(i),
        forall|k: int| 0 <= k < out.len() ==> (#[trigger] out@[k]) < hs.len(),
        !ends ==> forall|j: int, k: int|
            0 <= j <= k < out.len() ==> hs@[out@[j] as int].0.start <= hs@[out@[k] as int].0.start,
        ends ==> forall|j: int, k: int|
            0 <= j <= k < out.len() ==> hs@[out@[j] as int].0.end <= hs@[out@[k] as int].0.end,
{
    let mut pairs: Vec<(usize, usize)> = Vec::new();
    let mut k: usize = 0;
    while k < ordinals.len()
        invariant
            k <= ordinals.len(),
            pairs.len() == k,
            forall|k: int| 0 <= k < ordinals.len() ==> (#[trigger] ordinals@[k]) < hs.len(),
            forall|j: int|
                0 <= j < k ==> (#[trigger] pairs@[j]).1 == ordinals@[j] && pairs@[j].0 == (if ends {
                    hs@[ordinals@[j] as int].0.end
                } else {
                    hs@[ordinals@[j] as int].0.start
                }),
        decreases ordinals.len() - k,
    {
        let i: usize = ordinals[k];
        let key: usize = if ends {
            hs[i].0.end
        } else {
            hs[i].0.start
        };
        pairs.push((key, i));
        k += 1;
    }
    let ghost before = pairs@;
    sort_pairs(&mut pairs);
    proof {
        same_values(before, pairs@);
    }
    let mut out: Vec<usize> = Vec::new();
    let mut k: usize = 0;
    while k < pairs.len()
        invariant
            k <= pairs.len(),
            out.len() == k,
            forall|j: int| 0 <= j < k ==> #[trigger] out@[j] == pairs@[j].1,
        decreases pairs.len() - k,
    {
        out.push(pairs[k].1);
        k += 1;
    }
    proof {
        assert forall|j: int| 0 <= j < out.len() implies (#[trigger] out@[j]) < hs.len() && pairs@[j].0
            == (if ends {
            hs@[out@[j] as int].0.end
        } else {
            hs@[out@[j] as int].0.start
        }) by {
            assert(pairs@.contains(pairs@[j]));
            assert(before.contains(pairs@[j]));
        }
        assert forall|i: usize| #[trigger] out@.contains(i) <==> ordinals@.contains(i) by {
            if out@.contains(i) {
                let j = choose|j: int| 0 <= j < out.len() && out@[j] == i;
                assert(pairs@.contains(pairs@[j]));
                let m = choose|m: int| 0 <= m < before.len() && before[m] == pairs@[j];
                assert(ordinals@[m] == i);
            }
            if ordinals@.contains(i) {
                let m = choose|m: int| 0 <= m < ordinals.len() && ordinals@[m] == i;
                assert(before.contains(before[m]));
                assert(pairs@.contains(before[m]));
                let j = choose|j: int| 0 <= j < pairs.len() && pairs@[j] == before[m];
                assert(out@[j] == i);
            }
        }
        assert forall|j: int, k: int| 0 <= j <= k < out.len() implies pairs@[j].0 <= pairs@[k].0 by {
            assert(pair_le(pairs@[j], pairs@[k]));
        }
    }
    out
}

fn reversed(v: &Vec<usize>) -> (out: Vec<usize>)
    ensures
        out.len() == v.len(),
        forall|k: int| 0 <= k < out.len() ==> #[trigger] out@[k] == v@[v.len() - 1 - k],
        forall|i: usize| #[trigger] out@.contains(i) <==> v@.contains(i),
{
    let mut out: Vec<usize> = Vec::new();
    let mut k: usize = v.len();
    while k > 0
        invariant
            k <= v.len(),
            out.len() == v.len() - k,
            forall|j: int| 0 <= j < out.len() ==> #[trigger] out@[j] == v@[v.len() - 1 - j],
        decreases k,
    {
        k -= 1;
        out.push(v[k]);
    }
    proof {
        assert forall|i: usize| #[trigger] out@.contains(i) <==> v@.contains(i) by {
            if v@.contains(i) {
                let m = choose|m: int| 0 <= m < v.len() && v@[m] == i;
                assert(out@[v.len() - 1 - m] == i);
            }
        }
    }
    out
}

impl IntervalNode {
    /// A tree over the given highlights, none of which is empty.
    fn build(hs: &Vec<Highlight>, ordinals: Vec<usize>) -> (node: Option<Box<IntervalNode>>)
        requires
            forall|k: int| 0 <= k < ordinals.len() ==> (#[trigger] ordinals@[k]) < hs.len()
                && hs@[ordinals@[k] as int].0.start < hs@[ordinals@[k] as int].0.end,
        ensures
            match node {
                Some(node) => tree_wf(*node, hs@),
                None => true,
            },
            forall|i: usize| #[trigger] option_holds(node, i) <==> ordinals@.contains(i),
        decreases ordinals.len(),
    {
        if ordinals.len() == 0 {
            return None;
        }
        let points = ordered(hs, &ordinals, false);
        let middle: usize = points[points.len() / 2];
        let center: usize = hs[middle].0.start;
        let mut left: Vec<usize> = Vec::new();
        let mut crossing: Vec<usize> = Vec::new();
        let mut right: Vec<usize> = Vec::new();
        proof {
            assert(points@.contains(middle));
        }
        let mut k: usize = 0;
        while k < ordinals.len()
            invariant
                k <= ordinals.len(),
                forall|k: int| 0 <= k < ordinals.len() ==> (#[trigger] ordinals@[k]) < hs.len()
                    && hs@[ordinals@[k] as int].0.start < hs@[ordinals@[k] as int].0.end,
                left.len() + crossing.len() + right.len() == k,
                forall|j: int| 0 <= j < left.len() ==> ordinals@.contains(#[trigger] left@[j])
                    && left@[j] < hs.len() && hs@[left@[j] as int].0.end <= center
                    && hs@[left@[j] as int].0.start < hs@[left@[j] as int].0.end,
                forall|j: int| 0 <= j < right.len() ==> ordinals@.contains(#[trigger] right@[j])
                    && right@[j] < hs.len() && hs@[right@[j] as int].0.start > center
                    && hs@[right@[j] as int].0.start < hs@[right@[j] as int].0.end,
                forall|j: int| 0 <= j < crossing.len() ==> ordinals@.contains(#[trigger] crossing@[j])
                    && crosses(crossing@[j], center, hs@),
                forall|j: int| 0 <= j < k ==> left@.contains(#[trigger] ordinals@[j])
                    || crossing@.contains(ordinals@[j]) || right@.contains(ordinals@[j]),
                (exists|j: int| 0 <= j < k && hs@[#[trigger] ordinals@[j] as int].0.start == center)
                    ==> crossing.len() > 0,
            decreases ordinals.len() - k,
        {
            let index: usize = ordinals[k];
            let ghost (l, c, r) = (left@, crossing@, right@);
            proof {
                assert(ordinals@.contains(index));
            }
            if hs[index].0.end <= center {
                left.push(index);
                proof {
                    assert(left@[l.len() as int] == index);
                    assert(forall|x: usize| l.contains(x) ==> left@.contains(x)) by {
                        assert(forall|m: int| 0 <= m < l.len() ==> left@[m] == l[m]);
                    }
                }
            } else if hs[index].0.start > center {
                right.push(index);
                proof {
                    assert(right@[r.len() as int] == index);
                    assert(forall|x: usize| r.contains(x) ==> right@.contains(x)) by {
                        assert(forall|m: int| 0 <= m < r.len() ==> right@[m] == r[m]);
                    }
                }
            } else {
                crossing.push(index);
                proof {
                    assert(crossing@[c.len() as int] == index);
                    assert(forall|x: usize| c.contains(x) ==> crossing@.contains(x)) by {
                        assert(forall|m: int| 0 <= m < c.len() ==> crossing@[m] == c[m]);
                    }
                }
            }
            k += 1;
        }
        proof {
            assert(ordinals@.contains(middle));
            let j = choose|j: int| 0 <= j < ordinals.len() && ordinals@[j] == middle;
            assert(hs@[ordinals@[j] as int].0.start == center);
        }
        let by_start = ordered(hs, &crossing, false);
        let ascending = ordered(hs, &crossing, true);
        let by_end = reversed(&ascending);
        let ghost (l, c, r) = (left@, crossing@, right@);
        let left = Self::build(hs, left);
        let right = Self::build(hs, right);
        let node = IntervalNode { center, by_start, by_end, left, right };
        proof {
            assert forall|k: int| 0 <= k < node.by_start.len() implies crosses(
                #[trigger] node.by_start@[k],
                node.center,
                hs@,
            ) by {
                assert(node.by_start@.contains(node.by_start@[k]));
                assert(c.contains(node.by_start@[k]));
            }
            assert forall|k: int| 0 <= k < node.by_end.len() implies crosses(
                #[trigger] node.by_end@[k],
                node.center,
                hs@,
            ) by {
                assert(node.by_end@.contains(node.by_end@[k]));
                assert(c.contains(node.by_end@[k]));
            }
            assert forall|i: usize| node.left is Some && #[trigger] holds(
                *node.left->0,
                i,
            ) implies i < hs.len() && hs@[i as int].0.end <= node.center by {
                assert(option_holds(node.left, i));
                assert(l.contains(i));
            }
            assert forall|i: usize| node.right is Some && #[trigger] holds(
                *node.right->0,
                i,
            ) implies i < hs.len() && hs@[i as int].0.start > node.center by {
                assert(option_holds(node.right, i));
                assert(r.contains(i));
            }
            assert forall|j: int, k: int| 0 <= j <= k < node.by_end.len() implies hs@[node.by_end@[j] as int].0.end
                >= hs@[node.by_end@[k] as int].0.end by {
                assert(node.by_end@[j] == ascending@[ascending.len() - 1 - j]);
                assert(node.by_end@[k] == ascending@[ascending.len() - 1 - k]);
            }
            assert forall|i: usize| #[trigger] node.by_start@.contains(i) implies node.by_end@.contains(i) by {
                assert(c.contains(i));
                assert(ascending@.contains(i));
            }
            assert forall|i: usize| node.by_end@.contains(i) implies #[trigger] node.by_start@.contains(i) by {
                assert(ascending@.contains(i));
                assert(c.contains(i));
            }
            assert(tree_wf(node, hs@));
            assert forall|i: usize| holds(node, i) <==> ordinals@.contains(i) by {
                assert(holds(node, i) <==> (node.by_start@.contains(i) || option_holds(node.left, i)
                    || option_holds(node.right, i)));
                assert(node.by_start@.contains(i) <==> c.contains(i));
                if ordinals@.contains(i) {
                    let j = choose|j: int| 0 <= j < ordinals.len() && ordinals@[j] == i;
                    assert(l.contains(ordinals@[j]) || c.contains(ordinals@[j]) || r.contains(
                        ordinals@[j],
                    ));
                }
            }
        }
        let res = Some(Box::new(node));
        proof {
            assert forall|i: usize| #[trigger] option_holds(res, i) <==> ordinals@.contains(i) by {
                assert(option_holds(res, i) == holds(node, i));
            }
        }
        res
    }

    /// Adds the ordinals of the highlights that show something of a range.
    fn query(&self, hs: &Vec<Highlight>, from: usize, to: usize, output: &mut Vec<usize>)
        requires
            tree_wf(*self, hs@),
            from < to,
        ensures
            forall|i: usize| #[trigger]
                final(output)@.contains(i) <==> old(output)@.contains(i) || (holds(*self, i)
                    && hit(hs@[i as int], from as int, to as int)),
        decreases *self,
    {
        let ghost start = output@;
        proof {
            assert forall|k: int| 0 <= k < self.by_start.len() implies (#[trigger] self.by_start@[k])
                < hs.len() by {
                assert(crosses(self.by_start@[k], self.center, hs@));
            }
            assert forall|k: int| 0 <= k < self.by_end.len() implies (#[trigger] self.by_end@[k])
                < hs.len() by {
                assert(crosses(self.by_end@[k], self.center, hs@));
            }
        }
        if from > self.center {
            collect(&self.by_end, hs, from, to, output, true);
        } else {
            collect(&self.by_start, hs, from, to, output, false);
        }
        let ghost crossing = output@;
        proof {
            assert forall|i: usize| #[trigger] crossing.contains(i) <==> start.contains(i) || (
            self.by_start@.contains(i) && hit(hs@[i as int], from as int, to as int)) by {
                assert(self.by_start@.contains(i) <==> self.by_end@.contains(i));
            }
        }
        if from <= self.center {
            if let Some(left) = &self.left {
                left.query(hs, from, to, output);
            }
        }
        let ghost lower = output@;
        proof {
            assert forall|i: usize| #[trigger] lower.contains(i) <==> crossing.contains(i) || (
            option_holds(self.left, i) && hit(hs@[i as int], from as int, to as int)) by {
                if from > self.center && option_holds(self.left, i) {
                    assert(holds(*self.left->0, i));
                }
            }
        }
        if to > self.center {
            if let Some(right) = &self.right {
                right.query(hs, from, to, output);
            }
        }
        proof {
            assert forall|i: usize| #[trigger] output@.contains(i) <==> lower.contains(i) || (
            option_holds(self.right, i) && hit(hs@[i as int], from as int, to as int)) by {
                if to <= self.center && option_holds(self.right, i) {
                    assert(holds(*self.right->0, i));
                }
            }
            assert forall|i: usize| #[trigger] output@.contains(i) <==> start.contains(i) || (holds(
                *self,
                i,
            ) && hit(hs@[i as int], from as int, to as int)) by {
                assert(holds(*self, i) <==> self.by_start@.contains(i) || option_holds(
                    self.left,
                    i,
                ) || option_holds(self.right, i));
                assert(lower.contains(i) <==> crossing.contains(i) || (option_holds(self.left, i)
                    && hit(hs@[i as int], from as int, to as int)));
            }
        }
    }
}

/// The value stands among the first `k` of a list.
spec fn listed(s: Seq<usize>, k: int, i: usize) -> bool {
    exists|j: int| 0 <= j < k && j < s.len() && s[j] == i
}

/// Adds those ordinals of a list whose highlights show something of a range.
/// The list is in the order of the starts, or of the ends with the last
/// first; the walk stops at the first highlight that lies past the range.
fn collect(
    list: &Vec<usize>,
    hs: &Vec<Highlight>,
    from: usize,
    to: usize,
    output: &mut Vec<usize>,
    by_end: bool,
)
    requires
        forall|k: int| 0 <= k < list.len() ==> (#[trigger] list@[k]) < hs.len(),
        forall|k: int| 0 <= k < list.len() ==> hs@[(#[trigger] list@[k]) as int].0.start
            < hs@[list@[k] as int].0.end,
        by_end ==> forall|j: int, k: int|
            0 <= j <= k < list.len() ==> hs@[list@[j] as int].0.end >= hs@[list@[k] as int].0.end,
        !by_end ==> forall|j: int, k: int|
            0 <= j <= k < list.len() ==> hs@[list@[j] as int].0.start
                <= hs@[list@[k] as int].0.start,
    ensures
        forall|i: usize| #[trigger]
            final(output)@.contains(i) <==> old(output)@.contains(i) || (list@.contains(i) && hit(
                hs@[i as int],
                from as int,
                to as int,
            )),
{
    let ghost start = output@;
    let mut k: usize = 0;
    while k < list.len()
        invariant_except_break
            k <= list.len(),
            forall|i: usize| #[trigger]
                output@.contains(i) <==> start.contains(i) || (listed(list@, k as int, i) && hit(
                    hs@[i as int],
                    from as int,
                    to as int,
                )),
        invariant
            forall|k: int| 0 <= k < list.len() ==> (#[trigger] list@[k]) < hs.len(),
            forall|k: int| 0 <= k < list.len() ==> hs@[(#[trigger] list@[k]) as int].0.start
                < hs@[list@[k] as int].0.end,
            by_end ==> forall|j: int, k: int|
                0 <= j <= k < list.len() ==> hs@[list@[j] as int].0.end
                    >= hs@[list@[k] as int].0.end,
            !by_end ==> forall|j: int, k: int|
                0 <= j <= k < list.len() ==> hs@[list@[j] as int].0.start
                    <= hs@[list@[k] as int].0.start,
        ensures
            forall|i: usize| #[trigger]
                output@.contains(i) <==> start.contains(i) || (listed(list@, list.len() as int, i)
                    && hit(hs@[i as int], from as int, to as int)),
        decreases list.len() - k,
    {
        let index: usize = list[k];
        let ghost before = output@;
        let past = if by_end {
            hs[index].0.end <= from
        } else {
            hs[index].0.start >= to
        };
        if past {
            proof {
                assert forall|i: usize| #[trigger] output@.contains(i) <==> start.contains(i) || (
                listed(list@, list.len() as int, i) && hit(
                    hs@[i as int],
                    from as int,
                    to as int,
                )) by {
                    if listed(list@, list.len() as int, i) && hit(
                        hs@[i as int],
                        from as int,
                        to as int,
                    ) {
                        let j = choose|j: int|
                            0 <= j < list.len() && j < list@.len() && list@[j] == i;
                        if j >= k {
                            if by_end {
                                assert(hs@[list@[k as int] as int].0.end
                                    >= hs@[list@[j] as int].0.end);
                            } else {
                                assert(hs@[list@[k as int] as int].0.start
                                    <= hs@[list@[j] as int].0.start);
                            }
                        }
                        assert(listed(list@, k as int, i));
                    }
                    if listed(list@, k as int, i) {
                        let j = choose|j: int| 0 <= j < k && j < list@.len() && list@[j] == i;
                        assert(0 <= j < list.len() && list@[j] == i);
                    }
                }
            }
            break;
        }
        if hs[index].0.start < to && hs[index].0.end > from {
            output.push(index);
        }
        proof {
            pushed(before, index);
            assert forall|i: usize| #[trigger] output@.contains(i) <==> start.contains(i) || (
            listed(list@, k + 1, i) && hit(hs@[i as int], from as int, to as int)) by {
                assert(listed(list@, k + 1, i) <==> listed(list@, k as int, i) || i == index) by {
                    if i == index {
                        assert(list@[k as int] == i);
                    }
                    if listed(list@, k as int, i) {
                        let j = choose|j: int| 0 <= j < k && j < list@.len() && list@[j] == i;
                        assert(0 <= j < k + 1 && list@[j] == i);
                    }
                }
                assert(before.contains(i) <==> start.contains(i) || (listed(list@, k as int, i)
                    && hit(hs@[i as int], from as int, to as int)));
                assert(before.push(index).contains(i) <==> before.contains(i) || i == index);
            }
        }
        k += 1;
    }
    proof {
        assert forall|i: usize| listed(list@, list.len() as int, i) <==> list@.contains(i) by {
            if list@.contains(i) {
                let j = choose|j: int| 0 <= j < list@.len() && list@[j] == i;
                assert(0 <= j < list.len() && list@[j] == i);
            }
        }
    }
}

proof fn pushed(s: Seq<usize>, x: usize)
    ensures
        forall|i: usize|
            #![trigger s.push(x).contains(i)]
            s.push(x).contains(i) <==> s.contains(i) || i == x,
{
    assert forall|i: usize|
        #![trigger s.push(x).contains(i)]
        s.push(x).contains(i) <==> s.contains(i) || i == x by {
        if s.contains(i) {
            let j = choose|j: int| 0 <= j < s.len() && s[j] == i;
            assert(s.push(x)[j] == i);
        }
        if i == x {
            assert(s.push(x)[s.len() as int] == x);
        }
    }
}

/// Puts an ordinal into an ascending list, once.
fn insert_ordinal(list: &mut Vec<usize>, x: usize)
    requires
        forall|i: int, j: int| 0 <= i < j < old(list).len() ==> old(list)@[i] < old(list)@[j],
    ensures
        forall|i: int, j: int| 0 <= i < j < final(list).len() ==> final(list)@[i] < final(list)@[j],
        forall|i: usize| #[trigger] final(list)@.contains(i) <==> old(list)@.contains(i) || i == x,
{
    let ghost before = list@;
    let mut at: usize = list.len();
    while at > 0 && list[at - 1] > x
        invariant
            at <= list.len(),
            list@ == before,
            forall|j: int| at <= j < list.len() ==> list@[j] > x,
        decreases at,
    {
        at -= 1;
    }
    if at > 0 && list[at - 1] == x {
        return;
    }
    list.insert(at, x);
    proof {
        assert forall|i: usize| #[trigger] list@.contains(i) <==> before.contains(i) || i == x by {
            if before.contains(i) {
                let j = choose|j: int| 0 <= j < before.len() && before[j] == i;
                if j < at {
                    assert(list@[j] == i);
                } else {
                    assert(list@[j + 1] == i);
                }
            }
            if i == x {
                assert(list@[at as int] == x);
            }
            if list@.contains(i) && i != x {
                let j = choose|j: int| 0 <= j < list.len() && list@[j] == i;
                if j < at {
                    assert(before[j] == i);
                } else {
                    assert(before[j - 1] == i);
                }
            }
        }
    }
}

/// The highlights of one line, ready for range queries.
#[derive(Debug)]
pub struct LineHighlightIndex {
    highlights: Vec<Highlight>,
    root: Option<Box<IntervalNode>>,
}

impl LineHighlightIndex {
    /// The highlights, in their original order.
    pub closed spec fn list(self) -> Seq<Highlight> {
        self.highlights@
    }

    #[verifier::type_invariant]
    closed spec fn inv(self) -> bool {
        &&& match self.root {
            Some(root) => tree_wf(*root, self.highlights@),
            None => true,
        }
        &&& forall|i: usize| #[trigger]
            option_holds(self.root, i) <==> i < self.highlights.len()
                && self.highlights@[i as int].0.start < self.highlights@[i as int].0.end
    }

    pub fn new(highlights: Vec<Highlight>) -> (index: LineHighlightIndex)
        ensures
            index.list() == highlights@,
    {
        let mut ordinals: Vec<usize> = Vec::new();
        let mut k: usize = 0;
        while k < highlights.len()
            invariant
                k <= highlights.len(),
                forall|j: int| 0 <= j < ordinals.len() ==> (#[trigger] ordinals@[j]) < k
                    && highlights@[ordinals@[j] as int].0.start
                    < highlights@[ordinals@[j] as int].0.end,
                forall|i: usize|
                    i < k && highlights@[i as int].0.start < highlights@[i as int].0.end
                        ==> #[trigger] ordinals@.contains(i),
            decreases highlights.len() - k,
        {
            if highlights[k].0.start < highlights[k].0.end {
                let ghost before = ordinals@;
                ordinals.push(k);
                proof {
                    pushed(before, k);
                }
            }
            k += 1;
        }
        let root = IntervalNode::build(&highlights, ordinals);
        LineHighlightIndex { highlights, root }
    }

    /// The highlights that show something of a range, in their original
    /// order, which is the order of their precedence.
    pub fn query(&self, range: Range<usize>) -> (out: Vec<Highlight>)
        ensures
            range.start >= range.end ==> out.len() == 0,
            range.start < range.end ==> out@ == hits(
                self.list(),
                self.list().len() as int,
                range.start as int,
                range.end as int,
            ),
    {
        proof {
            use_type_invariant(self);
        }
        let mut out: Vec<Highlight> = Vec::new();
        if range.start >= range.end {
            return out;
        }
        let mut found: Vec<usize> = Vec::new();
        let (from, to): (usize, usize) = (range.start, range.end);
        if let Some(root) = &self.root {
            root.query(&self.highlights, from, to, &mut found);
        }
        let ghost hs = self.highlights@;
        let count: usize = self.highlights.len();
        proof {
            assert(hs.len() == count);
            assert forall|i: usize| #[trigger] found@.contains(i) <==> i < hs.len() && hit(
                hs[i as int],
                from as int,
                to as int,
            ) by {
                assert(option_holds(self.root, i) <==> i < hs.len() && hs[i as int].0.start
                    < hs[i as int].0.end);
            }
        }
        let mut ordinals: Vec<usize> = Vec::new();
        let mut k: usize = 0;
        while k < found.len()
            invariant
                k <= found.len(),
                forall|i: int, j: int| 0 <= i < j < ordinals.len() ==> ordinals@[i] < ordinals@[j],
                forall|i: usize| #[trigger]
                    ordinals@.contains(i) <==> listed(found@, k as int, i),
            decreases found.len() - k,
        {
            let ghost before = ordinals@;
            insert_ordinal(&mut ordinals, found[k]);
            proof {
                assert forall|i: usize| #[trigger] ordinals@.contains(i) <==> listed(
                    found@,
                    k + 1,
                    i,
                ) by {
                    assert(before.contains(i) <==> listed(found@, k as int, i));
                    if i == found@[k as int] {
                        assert(0 <= k < k + 1 && found@[k as int] == i);
                    }
                    if listed(found@, k as int, i) {
                        let j = choose|j: int| 0 <= j < k && j < found@.len() && found@[j] == i;
                        assert(0 <= j < k + 1 && found@[j] == i);
                    }
                }
            }
            k += 1;
        }
        proof {
            assert forall|i: usize| #[trigger] ordinals@.contains(i) <==> found@.contains(i) by {
                assert(ordinals@.contains(i) <==> listed(found@, found.len() as int, i));
                if found@.contains(i) {
                    let j = choose|j: int| 0 <= j < found@.len() && found@[j] == i;
                    assert(0 <= j < found.len() && found@[j] == i);
                }
            }
        }
        let mut j: usize = 0;
        let ghost mut upto: int = 0;
        while j < ordinals.len()
            invariant
                j <= ordinals.len(),
                hs == self.highlights@,
                0 <= upto <= hs.len(),
                j == 0 ==> upto == 0,
                j > 0 ==> upto == ordinals@[j - 1] + 1,
                forall|i: int, j: int| 0 <= i < j < ordinals.len() ==> ordinals@[i] < ordinals@[j],
                forall|i: usize| #[trigger]
                    ordinals@.contains(i) <==> i < hs.len() && hit(
                        hs[i as int],
                        from as int,
                        to as int,
                    ),
                out@ == hits(hs, upto, from as int, to as int),
            decreases ordinals.len() - j,
        {
            let i: usize = ordinals[j];
            proof {
                assert(ordinals@.contains(i));
                assert forall|m: int| upto <= m < i implies !hit(
                    #[trigger] hs[m],
                    from as int,
                    to as int,
                ) by {
                    if hit(hs[m], from as int, to as int) {
                        assert(ordinals@.contains(m as usize));
                        let q = choose|q: int| 0 <= q < ordinals.len() && ordinals@[q] == m;
                        if q < j {
                            if q < j - 1 {
                                assert(ordinals@[q] < ordinals@[j - 1]);
                            }
                        } else if q > j {
                            assert(ordinals@[j as int] < ordinals@[q]);
                        }
                    }
                }
                no_hits_between(hs, upto, i as int, from as int, to as int);
                upto = i + 1;
            }
            let h = &self.highlights[i];
            out.push((h.0.start..h.0.end, h.1));
            j += 1;
        }
        proof {
            assert forall|m: int| upto <= m < hs.len() implies !hit(
                #[trigger] hs[m],
                from as int,
                to as int,
            ) by {
                if hit(hs[m], from as int, to as int) {
                    assert(ordinals@.contains(m as usize));
                    let q = choose|q: int| 0 <= q < ordinals.len() && ordinals@[q] == m;
                    if q < j - 1 {
                        assert(ordinals@[q] < ordinals@[j - 1]);
                    }
                }
            }
            no_hits_between(hs, upto, hs.len() as int, from as int, to as int);
        }
        out
    }
}

proof fn no_hits_between(hs: Seq<Highlight>, a: int, b: int, from: int, to: int)
    requires
        0 <= a <= b <= hs.len(),
        forall|m: int| a <= m < b ==> !hit(#[trigger] hs[m], from, to),
    ensures
        hits(hs, a, from, to) == hits(hs, b, from, to),
    decreases b - a,
{
    if a < b {
        no_hits_between(hs, a, b - 1, from, to);
    }
}

/// A query answers with highlights of the line that overlap the range, and
/// with all of them.
pub proof fn query_is_exact(hs: Seq<Highlight>, k: int, from: int, to: int, h: Highlight)
    requires
        0 <= k <= hs.len(),
    ensures
        hits(hs, k, from, to).contains(h) <==> exists|i: int|
            0 <= i < k && #[trigger] hs[i] == h && hit(h, from, to),
        hits(hs, k, from, to).len() <= k,
    decreases k,
{
    if k > 0 {
        query_is_exact(hs, k - 1, from, to, h);
        let before = hits(hs, k - 1, from, to);
        let after = hits(hs, k, from, to);
        if hit(hs[k - 1], from, to) {
            assert(after.last() == hs[k - 1]);
            if before.contains(h) {
                let j = choose|j: int| 0 <= j < before.len() && before[j] == h;
                assert(after[j] == h);
            }
            if after.contains(h) && !before.contains(h) {
                let j = choose|j: int| 0 <= j < after.len() && after[j] == h;
                if j < before.len() {
                    assert(before[j] == h);
                }
                assert(hs[k - 1] == h);
            }
        }
    }
}

/// The indexes of the lines of a buffer, for one generation of its text and
/// its highlights.
#[derive(Debug)]
pub struct HighlightRangeCache {
    generation: Option<(u64, u64)>,
    lines: Vec<(usize, LineHighlightIndex)>,
}

/// The highlights cached for a line, among the first `k` entries: the latest.
spec fn cached(lines: Seq<(usize, LineHighlightIndex)>, k: int, line: usize) -> Option<
    Seq<Highlight>,
>
    decreases k,
{
    if k <= 0 || k > lines.len() {
        None
    } else if lines[k - 1].0 == line {
        Some(lines[k - 1].1.list())
    } else {
        cached(lines, k - 1, line)
    }
}

impl HighlightRangeCache {
    /// The highlights cached for a line in a generation.
    pub closed spec fn entry(self, line: usize, generation: (u64, u64)) -> Option<Seq<Highlight>> {
        if self.generation == Some(generation) {
            cached(self.lines@, self.lines.len() as int, line)
        } else {
            None
        }
    }

    pub fn new() -> (cache: HighlightRangeCache)
        ensures
            forall|line: usize, generation: (u64, u64)| cache.entry(line, generation) is None,
    {
        HighlightRangeCache { generation: None, lines: Vec::new() }
    }

    /// Drops what belongs to another generation.
    fn sync_generation(&mut self, generation: (u64, u64))
        ensures
            final(self).generation == Some(generation),
            forall|line: usize|
                #![trigger final(self).entry(line, generation)]
                final(self).entry(line, generation) == old(self).entry(line, generation),
    {
        let same = match self.generation {
            Some(current) => current.0 == generation.0 && current.1 == generation.1,
            None => false,
        };
        if !same {
            self.lines.clear();
            self.generation = Some(generation);
        }
    }

    /// The index of a line, where it was built in this generation.
    pub fn get(&mut self, line: usize, generation: (u64, u64)) -> (res: Option<&LineHighlightIndex>)
        ensures
            match res {
                Some(index) => old(self).entry(line, generation) == Some(index.list()),
                None => old(self).entry(line, generation) is None,
            },
            forall|other: usize|
                #![trigger final(self).entry(other, generation)]
                final(self).entry(other, generation) == old(self).entry(other, generation),
    {
        self.sync_generation(generation);
        proof {
            assert(self.entry(line, generation) == old(self).entry(line, generation));
        }
        let mut k: usize = self.lines.len();
        while k > 0 && self.lines[k - 1].0 != line
            invariant
                k <= self.lines.len(),
                cached(self.lines@, k as int, line) == cached(
                    self.lines@,
                    self.lines.len() as int,
                    line,
                ),
            decreases k,
        {
            k -= 1;
        }
        if k > 0 {
            Some(&self.lines[k - 1].1)
        } else {
            None
        }
    }

    /// Builds and keeps the index of a line.
    pub fn insert(&mut self, line: usize, generation: (u64, u64), highlights: Vec<Highlight>)
        ensures
            final(self).entry(line, generation) == Some(highlights@),
            forall|other: usize|
                #![trigger final(self).entry(other, generation)]
                other != line ==> final(self).entry(other, generation) == old(self).entry(
                    other,
                    generation,
                ),
    {
        self.sync_generation(generation);
        let ghost mid = *self;
        let ghost before = self.lines@;
        let index = LineHighlightIndex::new(highlights);
        self.lines.push((line, index));
        proof {
            assert forall|other: usize| other != line implies self.entry(other, generation)
                == old(self).entry(other, generation) by {
                assert(mid.entry(other, generation) == old(self).entry(other, generation));
                cached_prefix(before, self.lines@, before.len() as int, other);
                assert(cached(self.lines@, before.len() as int, other) == cached(
                    before,
                    before.len() as int,
                    other,
                ));
            }
        }
    }
}

proof fn cached_prefix(
    a: Seq<(usize, LineHighlightIndex)>,
    b: Seq<(usize, LineHighlightIndex)>,
    k: int,
    line: usize,
)
    requires
        0 <= k <= a.len(),
        k <= b.len(),
        forall|j: int| 0 <= j < k ==> a[j] == b[j],
    ensures
        cached(a, k, line) == cached(b, k, line),
    decreases k,
{
    if k > 0 {
        cached_prefix(a, b, k - 1, line);
    }
}

/// Queries an index that a cache handed out.
pub fn query_cached_index(index: &LineHighlightIndex, range: Range<usize>) -> (out: Vec<Highlight>)
    ensures
        range.start >= range.end ==> out.len() == 0,
        range.start < range.end ==> out@ == hits(
            index.list(),
            index.list().len() as int,
            range.start as int,
            range.end as int,
        ),
{
    index.query(range)
}

} // verus!
