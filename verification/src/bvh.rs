use std::collections::HashSet;
use vstd::prelude::*;

verus! {

broadcast use vstd::std_specs::hash::group_hash_axioms;

/// A node of a bounding volume hierarchy over the primitives at positions
/// `[start, end)`; an inner node has both children, which split that range.
pub struct BvhNode<B> {
    pub lc: Option<Box<BvhNode<B>>>,
    pub rc: Option<Box<BvhNode<B>>>,
    pub bbox: B,
    pub start: usize,
    pub end: usize,
}

impl<B> BvhNode<B> {
    /// A leaf over `[start, end)`.
    pub fn new(start: usize, end: usize, bbox: B) -> (res: Self)
        ensures
            res.start == start,
            res.end == end,
            res.bbox == bbox,
            res.lc is None,
            res.rc is None,
    {
        Self { lc: None, rc: None, bbox, start, end }
    }

    /// Number of primitives under the node.
    pub fn size(&self) -> (res: usize)
        requires
            self.start <= self.end,
        ensures
            res == self.end - self.start,
    {
        self.end - self.start
    }

    pub fn is_leaf(&self) -> (res: bool)
        ensures
            res == self.lc is None,
    {
        self.lc.is_none()
    }

    /// The node's range is not reversed; an inner node has two children that split
    /// its range at one point, and both are well formed.
    pub open spec fn wf(&self) -> bool
        decreases self,
    {
        &&& self.start <= self.end
        &&& (self.lc is None <==> self.rc is None)
        &&& match (self.lc, self.rc) {
            (Some(l), Some(r)) => {
                &&& l.start == self.start
                &&& l.end == r.start
                &&& r.end == self.end
                &&& l.wf()
                &&& r.wf()
            },
            _ => true,
        }
    }

    /// The ranges of the leaves, from left to right.
    pub open spec fn leaves(&self) -> Seq<(int, int)>
        decreases self,
    {
        match (self.lc, self.rc) {
            (Some(l), Some(r)) => l.leaves() + r.leaves(),
            _ => seq![(self.start as int, self.end as int)],
        }
    }
}

/// The leaves of a well-formed node tile its range: the first begins at `start`,
/// each one ends where the next begins, none is reversed, and the last ends at
/// `end`. So each primitive of the node is in exactly one leaf.
pub proof fn bvh_leaves_tile_range<B>(node: &BvhNode<B>)
    requires
        node.wf(),
    ensures
        node.leaves().len() > 0,
        node.leaves()[0].0 == node.start,
        node.leaves().last().1 == node.end,
        forall|k: int| 0 <= k < node.leaves().len() ==> #[trigger] node.leaves()[k].0 <= node.leaves()[k].1,
        forall|k: int|
            0 <= k < node.leaves().len() - 1 ==> #[trigger] node.leaves()[k].1 == node.leaves()[k + 1].0,
    decreases node,
{
    match (node.lc, node.rc) {
        (Some(l), Some(r)) => {
            bvh_leaves_tile_range(&*l);
            bvh_leaves_tile_range(&*r);
            let a = l.leaves();
            let b = r.leaves();
            assert(node.leaves() == a + b);
            assert forall|k: int| 0 <= k < (a + b).len() - 1 implies #[trigger] (a + b)[k].1 == (a
                + b)[k + 1].0 by {
                if k < a.len() - 1 {
                    assert(a[k].1 == a[k + 1].0);
                } else if k == a.len() - 1 {
                } else {
                    assert(b[k - a.len()].1 == b[k - a.len() + 1].0);
                }
            }
            assert forall|k: int| 0 <= k < (a + b).len() implies #[trigger] (a + b)[k].0 <= (a
                + b)[k].1 by {
                if k < a.len() {
                    assert(a[k].0 <= a[k].1);
                } else {
                    assert(b[k - a.len()].0 <= b[k - a.len()].1);
                }
            }
        },
        _ => {},
    }
}

/// The primitive positions listed in buckets `lo..hi`.
pub open spec fn bucket_set(buckets: Seq<Seq<usize>>, lo: int, hi: int) -> Set<int> {
    Set::new(
        |i: int|
            exists|b: int, k: int|
                lo <= b < hi && 0 <= k < buckets[b].len() && #[trigger] buckets[b][k] == i,
    )
}

/// The buckets as sequences of positions.
pub open spec fn buckets_view(v: Seq<Vec<usize>>) -> Seq<Seq<usize>> {
    v.map_values(|b: Vec<usize>| b@)
}

/// No position is listed both in buckets `0..split` and in buckets `split..hi`.
pub open spec fn sides_apart(buckets: Seq<Seq<usize>>, split: int, hi: int) -> bool {
    forall|i: int| #[trigger] bucket_set(buckets, 0, split).contains(i) ==> !bucket_set(buckets, split, hi).contains(i)
}

/// Every position listed in buckets `0..hi` lies in `[start, end)`.
pub open spec fn buckets_within(buckets: Seq<Seq<usize>>, hi: int, start: int, end: int) -> bool {
    forall|b: int, k: int|
        0 <= b < hi && 0 <= k < buckets[b].len() ==> start <= #[trigger] buckets[b][k] < end
}

/// How many positions in `[a, b)` are (`member`) or are not (`!member`) in `s`.
pub open spec fn count_in(s: Set<int>, a: int, b: int, member: bool) -> nat
    decreases b - a,
{
    if b <= a {
        0
    } else {
        count_in(s, a, b - 1, member) + if s.contains(b - 1) == member {
            1nat
        } else {
            0nat
        }
    }
}

proof fn lemma_count_split(s: Set<int>, a: int, m: int, b: int, member: bool)
    requires
        a <= m <= b,
    ensures
        count_in(s, a, b, member) == count_in(s, a, m, member) + count_in(s, m, b, member),
    decreases b - m,
{
    if b > m {
        lemma_count_split(s, a, m, b - 1, member);
    }
}

proof fn lemma_count_total(s: Set<int>, a: int, b: int)
    requires
        a <= b,
    ensures
        count_in(s, a, b, true) + count_in(s, a, b, false) == b - a,
    decreases b - a,
{
    if b > a {
        lemma_count_total(s, a, b - 1);
    }
}

proof fn lemma_count_zero(s: Set<int>, a: int, b: int, member: bool)
    requires
        count_in(s, a, b, member) == 0,
    ensures
        forall|i: int| a <= i < b ==> s.contains(i) != member,
    decreases b - a,
{
    if b > a {
        lemma_count_zero(s, a, b - 1, member);
    }
}

proof fn lemma_count_front(s: Set<int>, a: int, b: int, member: bool)
    requires
        a < b,
    ensures
        count_in(s, a, b, member) == count_in(s, a + 1, b, member) + if s.contains(a) == member {
            1nat
        } else {
            0nat
        },
{
    lemma_count_split(s, a, a + 1, b, member);
    assert(count_in(s, a, a, member) == 0);
}

proof fn lemma_count_dominates(inner: Set<int>, outer: Set<int>, a: int, b: int)
    requires
        forall|i: int| #[trigger] inner.contains(i) ==> !outer.contains(i),
    ensures
        count_in(outer, a, b, false) >= count_in(inner, a, b, true),
    decreases b - a,
{
    if b > a {
        lemma_count_dominates(inner, outer, a, b - 1);
    }
}

/// A position of `[a, b)` that is not (`!member`) or is (`member`) in `s` counts:
/// fewer such positions lie before it than in the whole range.
proof fn lemma_count_before(s: Set<int>, a: int, i: int, b: int, member: bool)
    requires
        a <= i < b,
        s.contains(i) == member,
    ensures
        count_in(s, a, i, member) < count_in(s, a, b, member),
        count_in(s, i + 1, b, member) < count_in(s, a, b, member),
{
    lemma_count_split(s, a, i, b, member);
    lemma_count_front(s, i, b, member);
    lemma_count_split(s, a, i + 1, b, member);
    lemma_count_split(s, a, i, i + 1, member);
}

/// How many positions of `[start, i)` are not in `left`: the place of `i` among
/// the positions that leave the left part, counted upwards from `start`.
pub open spec fn rank_left(left: Set<int>, start: int, i: int) -> nat {
    count_in(left, start, i, false)
}

/// How many positions of `(q, end)` are not in `right`: the place of `q` among
/// the positions that may be taken from the right part, counted downwards from
/// `end - 1`.
pub open spec fn rank_right(right: Set<int>, q: int, end: int) -> nat {
    count_in(right, q + 1, end, false)
}

/// `after` is `before` with the node `[start, end)` split at `mid` as [`split_at`]
/// splits it: walking the left part `[start, mid)` upwards, each position that is
/// not in `left` trades its item with the next position, walking the right part
/// `[mid, end)` downwards, that is not in `right`; every other item stays.
pub open spec fn split_moves<P>(
    before: Seq<P>,
    after: Seq<P>,
    left: Set<int>,
    right: Set<int>,
    start: int,
    mid: int,
    end: int,
) -> bool {
    &&& after.len() == before.len()
    &&& forall|i: int| 0 <= i < before.len() && !(start <= i < end) ==> #[trigger] after[i] == before[i]
    &&& forall|i: int| start <= i < mid && left.contains(i) ==> #[trigger] after[i] == before[i]
    &&& forall|q: int| mid <= q < end && right.contains(q) ==> #[trigger] after[q] == before[q]
    &&& forall|i: int|
        #![trigger rank_left(left, start, i)]
        start <= i < mid && !left.contains(i) ==> exists|q: int|
            mid <= q < end && !right.contains(q) && #[trigger] rank_right(right, q, end) == rank_left(left, start, i)
    &&& forall|i: int, q: int|
        #![trigger rank_left(left, start, i), rank_right(right, q, end)]
        start <= i < mid && !left.contains(i) && mid <= q < end && !right.contains(q) && rank_left(left, start, i)
            == rank_right(right, q, end) ==> after[i] == before[q] && after[q] == before[i]
    &&& forall|q: int|
        mid <= q < end && !right.contains(q) && rank_right(right, q, end) >= count_in(left, start, mid, false)
            ==> #[trigger] after[q] == before[q]
}

/// Where [`split_at`]'s walk stands: the left part is walked up to `lp`, the right
/// part down to `rp`, and `perm` says where each item came from.
#[verifier::opaque]
spec fn split_walk(perm: Seq<int>, left: Set<int>, right: Set<int>, start: int, lp: int, rp: int, mid: int, end: int) -> bool {
    &&& start <= lp <= mid <= rp + 1 <= end
    &&& forall|i: int| lp <= i <= rp ==> #[trigger] perm[i] == i
    &&& forall|i: int| start <= i < lp && left.contains(i) ==> #[trigger] perm[i] == i
    &&& forall|q: int| rp < q < end && right.contains(q) ==> #[trigger] perm[q] == q
    &&& forall|i: int|
        #![trigger rank_left(left, start, i)]
        start <= i < lp && !left.contains(i) ==> exists|q: int|
            rp < q < end && !right.contains(q) && #[trigger] rank_right(right, q, end) == rank_left(left, start, i)
    &&& forall|i: int, q: int|
        #![trigger rank_left(left, start, i), rank_right(right, q, end)]
        start <= i < lp && !left.contains(i) && rp < q < end && !right.contains(q) && rank_left(left, start, i)
            == rank_right(right, q, end) ==> perm[i] == q && perm[q] == i
    &&& count_in(right, rp + 1, end, false) == count_in(left, start, lp, false)
    &&& count_in(right, mid, rp + 1, false) >= count_in(left, lp, mid, false)
}

proof fn lemma_walk_begin(perm: Seq<int>, left: Set<int>, right: Set<int>, start: int, mid: int, end: int)
    requires
        start < end,
        mid == start + count_in(left, start, end, true),
        forall|i: int| #[trigger] left.contains(i) ==> !right.contains(i),
        forall|i: int| start <= i < end ==> #[trigger] perm[i] == i,
    ensures
        split_walk(perm, left, right, start, start, end - 1, mid, end),
{
    reveal(split_walk);
    lemma_count_total(left, start, end);
    lemma_count_split(left, start, mid, end, true);
    lemma_count_split(left, start, mid, end, false);
    lemma_count_total(left, start, mid);
    lemma_count_total(left, mid, end);
    lemma_count_dominates(left, right, mid, end);
}

/// A position of the left part that `left` lists stays where it is.
proof fn lemma_walk_keep(perm: Seq<int>, left: Set<int>, right: Set<int>, start: int, lp: int, rp: int, mid: int, end: int)
    requires
        split_walk(perm, left, right, start, lp, rp, mid, end),
        lp < mid,
        left.contains(lp),
    ensures
        split_walk(perm, left, right, start, lp + 1, rp, mid, end),
{
    reveal(split_walk);
    lemma_count_split(left, start, lp, lp + 1, false);
    lemma_count_front(left, lp, mid, false);
    assert(count_in(left, lp, lp + 1, false) == 0) by {
        assert(count_in(left, lp, lp, false) == 0);
    }
    assert forall|i: int| start <= i < lp + 1 && !left.contains(i) implies exists|q: int|
        rp < q < end && !right.contains(q) && #[trigger] rank_right(right, q, end) == rank_left(left, start, i) by {
        let q = choose|q: int| rp < q < end && !right.contains(q) && #[trigger] rank_right(right, q, end) == rank_left(left, start, i);
        assert(rank_right(right, q, end) == rank_left(left, start, i));
    }
}

/// A position of the right part that `right` lists is passed over.
proof fn lemma_walk_skip(perm: Seq<int>, left: Set<int>, right: Set<int>, start: int, lp: int, rp: int, mid: int, end: int)
    requires
        split_walk(perm, left, right, start, lp, rp, mid, end),
        lp < mid,
        !left.contains(lp),
        right.contains(rp),
    ensures
        mid < rp,
        split_walk(perm, left, right, start, lp, rp - 1, mid, end),
{
    reveal(split_walk);
    lemma_count_front(left, lp, mid, false);
    if rp <= mid {
        assert(count_in(right, mid, rp + 1, false) == 0) by {
            if rp == mid {
                assert(count_in(right, mid, mid, false) == 0);
            }
        }
    }
    lemma_count_front(right, rp, end, false);
    assert(count_in(right, mid, rp + 1, false) == count_in(right, mid, rp, false));
    assert forall|i: int| start <= i < lp && !left.contains(i) implies exists|q: int|
        rp - 1 < q < end && !right.contains(q) && #[trigger] rank_right(right, q, end) == rank_left(left, start, i) by {
        let q = choose|q: int| rp < q < end && !right.contains(q) && #[trigger] rank_right(right, q, end) == rank_left(left, start, i);
        assert(rank_right(right, q, end) == rank_left(left, start, i));
    }
}

/// When the left part needs a partner, the right part still has one at `rp`.
proof fn lemma_walk_partner(perm: Seq<int>, left: Set<int>, right: Set<int>, start: int, lp: int, rp: int, mid: int, end: int)
    requires
        split_walk(perm, left, right, start, lp, rp, mid, end),
        lp < mid,
        !left.contains(lp),
    ensures
        mid <= rp,
        perm[lp] == lp,
        perm[rp] == rp,
{
    reveal(split_walk);
    lemma_count_front(left, lp, mid, false);
    if rp + 1 == mid {
        assert(count_in(right, mid, mid, false) == 0);
    }
}

/// Trading the items at `lp` and `rp` pairs the two positions.
proof fn lemma_walk_trade(perm: Seq<int>, left: Set<int>, right: Set<int>, start: int, lp: int, rp: int, mid: int, end: int)
    requires
        split_walk(perm, left, right, start, lp, rp, mid, end),
        0 <= start,
        end <= perm.len(),
        lp < mid <= rp,
        !left.contains(lp),
        !right.contains(rp),
    ensures
        split_walk(perm.update(lp, rp).update(rp, lp), left, right, start, lp + 1, rp - 1, mid, end),
{
    reveal(split_walk);
    let np = perm.update(lp, rp).update(rp, lp);
    lemma_count_split(left, start, lp, lp + 1, false);
    assert(count_in(left, lp, lp, false) == 0);
    lemma_count_front(left, lp, mid, false);
    lemma_count_front(right, rp, end, false);
    assert(count_in(right, mid, rp + 1, false) == count_in(right, mid, rp, false) + 1);
    assert forall|i: int| start <= i < lp + 1 && !left.contains(i) implies exists|q: int|
        rp - 1 < q < end && !right.contains(q) && #[trigger] rank_right(right, q, end) == rank_left(left, start, i) by {
        if i == lp {
            assert(rank_right(right, rp, end) == rank_left(left, start, i));
        } else {
            assert(start <= i < lp && !left.contains(i));
            let q = choose|q: int| rp < q < end && !right.contains(q) && #[trigger] rank_right(right, q, end) == rank_left(left, start, i);
            assert(rank_right(right, q, end) == rank_left(left, start, i));
        }
    }
    assert forall|i: int, q: int|
        start <= i < lp + 1 && !left.contains(i) && rp - 1 < q < end && !right.contains(q) && rank_left(left, start, i)
            == rank_right(right, q, end) implies np[i] == q && np[q] == i by {
        if i == lp && q != rp {
            lemma_count_before(right, rp + 1, q, end, false);
        } else if i != lp && q == rp {
            lemma_count_before(left, start, i, lp, false);
        }
    }
}

/// At the end of the walk the items have moved as [`split_moves`] says.
proof fn lemma_walk_end<P>(
    before: Seq<P>,
    after: Seq<P>,
    perm: Seq<int>,
    left: Set<int>,
    right: Set<int>,
    start: int,
    rp: int,
    mid: int,
    end: int,
)
    requires
        split_walk(perm, left, right, start, mid, rp, mid, end),
        0 <= start < end <= before.len(),
        mid == start + count_in(left, start, end, true),
        is_permutation_on(perm, start, end, before.len() as int),
        after.len() == before.len(),
        forall|i: int| 0 <= i < before.len() ==> #[trigger] after[i] == before[perm[i]],
    ensures
        split_moves(before, after, left, right, start, mid, end),
        count_in(left, start, end, true) == 0 || count_in(left, start, end, true) == end - start ==> after == before,
{
    reveal(split_walk);
    assert forall|i: int| start <= i < mid && !left.contains(i) implies exists|q: int|
        mid <= q < end && !right.contains(q) && #[trigger] rank_right(right, q, end) == rank_left(left, start, i) by {
        let q = choose|q: int| rp < q < end && !right.contains(q) && #[trigger] rank_right(right, q, end) == rank_left(left, start, i);
        assert(rank_right(right, q, end) == rank_left(left, start, i));
    }
    assert forall|i: int, q: int|
        #![trigger rank_left(left, start, i), rank_right(right, q, end)]
        start <= i < mid && !left.contains(i) && mid <= q < end && !right.contains(q) && rank_left(left, start, i)
            == rank_right(right, q, end) implies after[i] == before[q] && after[q] == before[i] by {
        lemma_count_before(left, start, i, mid, false);
        if q <= rp {
            lemma_count_split(right, q + 1, rp + 1, end, false);
        }
        assert(perm[i] == q && perm[q] == i);
    }
    assert forall|q: int|
        mid <= q < end && !right.contains(q) && rank_right(right, q, end) >= count_in(left, start, mid, false)
            implies #[trigger] after[q] == before[q] by {
        if q > rp {
            lemma_count_before(right, rp + 1, q, end, false);
        }
        assert(perm[q] == q);
    }
    assert forall|q: int| mid <= q < end && right.contains(q) implies #[trigger] after[q] == before[q] by {
        assert(perm[q] == q);
    }
    assert forall|i: int| start <= i < mid && left.contains(i) implies #[trigger] after[i] == before[i] by {
        assert(perm[i] == i);
    }
    let count = count_in(left, start, end, true);
    if count == 0 || count == end - start {
        if count == end - start {
            lemma_count_total(left, start, end);
            lemma_count_zero(left, start, end, false);
        }
        assert forall|i: int| 0 <= i < before.len() implies #[trigger] after[i] == before[i] by {
            if start <= i < end {
                if count == end - start {
                    assert(left.contains(i));
                } else {
                    assert(count_in(left, start, mid, false) == 0);
                    if right.contains(i) {
                    } else {
                        assert(rank_right(right, i, end) >= 0);
                    }
                }
            }
        }
        assert(after =~= before);
    }
}

/// `perm` rearranges `[start, end)` among itself and fixes every other position of
/// a sequence of length `len`.
pub open spec fn is_permutation_on(perm: Seq<int>, start: int, end: int, len: int) -> bool {
    &&& perm.len() == len
    &&& forall|i: int| 0 <= i < len && !(start <= i < end) ==> #[trigger] perm[i] == i
    &&& forall|i: int| start <= i < end ==> start <= #[trigger] perm[i] < end
    &&& forall|i: int, j: int| start <= i < end && start <= j < end && i != j ==> #[trigger] perm[i] != #[trigger] perm[j]
}


/// Exchanges the items at `i` and `j`.
fn swap_items<P>(v: &mut Vec<P>, i: usize, j: usize)
    requires
        i < old(v).len(),
        j < old(v).len(),
    ensures
        final(v)@ == old(v)@.update(i as int, old(v)@[j as int]).update(j as int, old(v)@[i as int]),
{
    if i == j {
        return ;
    }
    let (lo, hi) = if i < j {
        (i, j)
    } else {
        (j, i)
    };
    let ghost s = v@;
    let mut tmp = v.pop().unwrap();
    if hi == v.len() {
        std::mem::swap(&mut v[lo], &mut tmp);
        v.push(tmp);
    } else {
        std::mem::swap(&mut v[lo], &mut tmp);
        std::mem::swap(&mut v[hi], &mut tmp);
        std::mem::swap(&mut v[lo], &mut tmp);
        v.push(tmp);
    }
    assert(v@ =~= s.update(i as int, s[j as int]).update(j as int, s[i as int]));
}

/// The set of positions that buckets `lo..hi` list.
fn mark_buckets(prim_indices: &Vec<Vec<usize>>, lo: usize, hi: usize) -> (marks: HashSet<usize>)
    requires
        lo <= hi <= prim_indices.len(),
    ensures
        forall|i: usize| #[trigger] marks@.contains(i) == bucket_set(buckets_view(prim_indices@), lo as int, hi as int).contains(i as int),
{
    let ghost bv = buckets_view(prim_indices@);
    let mut marks: HashSet<usize> = HashSet::new();
    let mut b: usize = lo;
    while b < hi
        invariant
            lo <= b <= hi,
            hi <= prim_indices.len(),
            bv == buckets_view(prim_indices@),
            forall|i: usize| #[trigger] marks@.contains(i) == bucket_set(bv, lo as int, b as int).contains(i as int),
        decreases hi - b,
    {
        let bucket = &prim_indices[b];
        let mut k: usize = 0;
        while k < bucket.len()
            invariant
                lo <= b < hi,
                hi <= prim_indices.len(),
                bv == buckets_view(prim_indices@),
                *bucket == prim_indices@[b as int],
                k <= bucket.len(),
                forall|i: usize| #[trigger] marks@.contains(i) == (bucket_set(bv, lo as int, b as int).contains(i as int)
                    || exists|q: int| 0 <= q < k && bucket@[q] == i),
            decreases bucket.len() - k,
        {
            let idx = bucket[k];
            marks.insert(idx);
            k = k + 1;
            proof {
                assert forall|i: usize| #[trigger] marks@.contains(i) == (bucket_set(bv, lo as int, b as int).contains(i as int)
                    || exists|q: int| 0 <= q < k && bucket@[q] == i) by {
                    if i == idx {
                        assert(bucket@[k - 1] == i);
                    } else if exists|q: int| 0 <= q < k && bucket@[q] == i {
                        let q = choose|q: int| 0 <= q < k && bucket@[q] == i;
                        assert(q != k - 1);
                    }
                }
            }
        }
        proof {
            assert forall|i: usize| #[trigger] marks@.contains(i) == bucket_set(bv, lo as int, b + 1).contains(i as int) by {
                if bucket_set(bv, lo as int, b + 1).contains(i as int) {
                    let (bb, kk) = choose|bb: int, kk: int|
                        lo <= bb < b + 1 && 0 <= kk < bv[bb].len() && #[trigger] bv[bb][kk] == i as int;
                    if bb < b {
                        assert(bucket_set(bv, lo as int, b as int).contains(i as int));
                    } else {
                        assert(bucket@[kk] == i);
                    }
                }
                if bucket_set(bv, lo as int, b as int).contains(i as int) {
                    let (bb, kk) = choose|bb: int, kk: int|
                        lo <= bb < b && 0 <= kk < bv[bb].len() && #[trigger] bv[bb][kk] == i as int;
                    assert(bv[bb][kk] == i as int);
                }
                if exists|q: int| 0 <= q < bucket.len() && bucket@[q] == i {
                    let q = choose|q: int| 0 <= q < bucket.len() && bucket@[q] == i;
                    assert(bv[b as int][q] == i as int);
                }
            }
        }
        b = b + 1;
    }
    marks
}

/// Splits the node `[start, end)` between buckets `0..split` (the left side) and
/// buckets `split..bucket_number` (the right side). The left child takes as many
/// positions as the left side lists in the node; walking its part upwards, each
/// position that the left side does not list trades its primitive with the next
/// position, walking down from `end - 1`, that the right side does not list (see
/// [`split_moves`]). Empties the buckets and returns the two children, with the
/// boxes the caller merged for them. Every listed position lies in the node, and
/// no position is listed on both sides.
pub fn split_at<P, B>(
    split: usize,
    bucket_number: usize,
    left_bbox: B,
    right_bbox: B,
    prim_indices: &mut Vec<Vec<usize>>,
    primitives: &mut Vec<P>,
    start: usize,
    end: usize,
) -> (res: (Box<BvhNode<B>>, Box<BvhNode<B>>))
    requires
        start < end <= old(primitives).len(),
        split <= bucket_number <= old(prim_indices).len(),
        buckets_within(buckets_view(old(prim_indices)@), bucket_number as int, start as int, end as int),
        sides_apart(buckets_view(old(prim_indices)@), split as int, bucket_number as int),
    ensures
        ({
            let left = bucket_set(buckets_view(old(prim_indices)@), 0, split as int);
            let right = bucket_set(buckets_view(old(prim_indices)@), split as int, bucket_number as int);
            let mid = start + count_in(left, start as int, end as int, true);
            &&& start <= mid <= end
            &&& res.0.start == start && res.0.end == mid && res.0.bbox == left_bbox
            &&& res.0.lc is None && res.0.rc is None
            &&& res.1.start == mid && res.1.end == end && res.1.bbox == right_bbox
            &&& res.1.lc is None && res.1.rc is None
            &&& split_moves(old(primitives)@, final(primitives)@, left, right, start as int, mid, end as int)
            &&& rearranged(old(primitives)@, final(primitives)@, start as int, end as int)
        }),
        final(primitives)@.len() == old(primitives)@.len(),
        ({
            let left = bucket_set(buckets_view(old(prim_indices)@), 0, split as int);
            let count = count_in(left, start as int, end as int, true);
            count == 0 || count == end - start ==> final(primitives)@ == old(primitives)@
        }),
        final(prim_indices)@.len() == old(prim_indices)@.len(),
        forall|b: int| 0 <= b < bucket_number ==> #[trigger] final(prim_indices)@[b]@.len() == 0,
        forall|b: int| bucket_number <= b < old(prim_indices)@.len() ==> #[trigger] final(prim_indices)@[b] == old(prim_indices)@[b],
{
    let ghost bv = buckets_view(prim_indices@);
    let ghost left = bucket_set(bv, 0, split as int);
    let ghost right = bucket_set(bv, split as int, bucket_number as int);
    let ghost old_prims = primitives@;

    let in_left = mark_buckets(prim_indices, 0, split);
    let in_right = mark_buckets(prim_indices, split, bucket_number);

    let mut b: usize = 0;
    while b < bucket_number
        invariant
            b <= bucket_number <= prim_indices.len(),
            prim_indices@.len() == bv.len(),
            forall|c: int| 0 <= c < b ==> #[trigger] prim_indices@[c]@.len() == 0,
            forall|c: int| b <= c < bv.len() ==> #[trigger] prim_indices@[c]@ == bv[c],
            forall|c: int| bucket_number <= c < bv.len() ==> #[trigger] prim_indices@[c] == old(prim_indices)@[c],
        decreases bucket_number - b,
    {
        prim_indices.set(b, Vec::new());
        b = b + 1;
    }

    let n = end - start;
    let mut count: usize = 0;
    let mut m: usize = 0;
    while m < n
        invariant
            m <= n,
            n == end - start,
            forall|i: usize| #[trigger] in_left@.contains(i) == left.contains(i as int),
            count == count_in(left, start as int, start + m, true),
            count <= m,
        decreases n - m,
    {
        if in_left.contains(&(start + m)) {
            count = count + 1;
        }
        m = m + 1;
    }
    let mid = start + count;

    let ghost mut perm = Seq::new(old_prims.len(), |i: int| i);
    proof {
        lemma_walk_begin(perm, left, right, start as int, mid as int, end as int);
    }
    let mut rp: usize = end - 1;
    let mut lp: usize = start;
    while lp < mid
        invariant
            n == end - start,
            end <= old_prims.len(),
            start <= lp <= mid,
            mid <= rp + 1 <= end,
            forall|i: usize| #[trigger] in_left@.contains(i) == left.contains(i as int),
            forall|i: usize| #[trigger] in_right@.contains(i) == right.contains(i as int),
            primitives@.len() == old_prims.len(),
            is_permutation_on(perm, start as int, end as int, old_prims.len() as int),
            forall|i: int| 0 <= i < old_prims.len() ==> #[trigger] primitives@[i] == old_prims[perm[i]],
            split_walk(perm, left, right, start as int, lp as int, rp as int, mid as int, end as int),
        decreases mid - lp,
    {
        if in_left.contains(&lp) {
            proof {
                lemma_walk_keep(perm, left, right, start as int, lp as int, rp as int, mid as int, end as int);
            }
        } else {
            while in_right.contains(&rp)
                invariant
                    n == end - start,
                    start <= lp < mid,
                    mid <= rp + 1 <= end,
                    forall|i: usize| #[trigger] in_right@.contains(i) == right.contains(i as int),
                    !left.contains(lp as int),
                    split_walk(perm, left, right, start as int, lp as int, rp as int, mid as int, end as int),
                decreases rp,
            {
                proof {
                    lemma_walk_partner(perm, left, right, start as int, lp as int, rp as int, mid as int, end as int);
                    lemma_walk_skip(perm, left, right, start as int, lp as int, rp as int, mid as int, end as int);
                }
                rp = rp - 1;
            }
            proof {
                lemma_walk_partner(perm, left, right, start as int, lp as int, rp as int, mid as int, end as int);
            }
            swap_items(primitives, lp, rp);
            proof {
                lemma_walk_trade(perm, left, right, start as int, lp as int, rp as int, mid as int, end as int);
                let p0 = perm;
                perm = p0.update(lp as int, rp as int).update(rp as int, lp as int);
                assert forall|i: int, j: int| start <= i < end && start <= j < end && i != j implies #[trigger] perm[i] != #[trigger] perm[j] by {
                    if i != lp && i != rp && j != lp && j != rp {
                        assert(p0[i] != p0[j]);
                    } else if i == lp && j != rp {
                        assert(p0[j] != p0[rp as int]);
                    } else if i == rp && j != lp {
                        assert(p0[j] != p0[lp as int]);
                    } else if j == lp && i != rp {
                        assert(p0[i] != p0[rp as int]);
                    } else if j == rp && i != lp {
                        assert(p0[i] != p0[lp as int]);
                    }
                }
            }
            rp = rp - 1;
        }
        lp = lp + 1;
    }
    proof {
        lemma_walk_end(old_prims, primitives@, perm, left, right, start as int, rp as int, mid as int, end as int);
        assert(rearranged(old_prims, primitives@, start as int, end as int)) by {
            reveal(rearranged);
        }
    }
    let lc = Box::new(BvhNode::new(start, mid, left_bbox));
    let rc = Box::new(BvhNode::new(mid, end, right_bbox));
    (lc, rc)
}

/// Two nodes that split a range at one point, each a leaf over its part, hang
/// under a parent over the whole range as a well-formed inner node.
pub proof fn bvh_split_children_wf<B>(parent: BvhNode<B>, lc: BvhNode<B>, rc: BvhNode<B>)
    requires
        parent.lc == Some(Box::new(lc)),
        parent.rc == Some(Box::new(rc)),
        lc.lc is None && lc.rc is None,
        rc.lc is None && rc.rc is None,
        lc.start == parent.start,
        lc.end == rc.start,
        rc.end == parent.end,
        lc.start <= lc.end <= rc.end,
    ensures
        parent.wf(),
        parent.leaves() == seq![(lc.start as int, lc.end as int), (rc.start as int, rc.end as int)],
{
    assert(lc.wf());
    assert(rc.wf());
    assert(lc.leaves() == seq![(lc.start as int, lc.end as int)]);
    assert(rc.leaves() == seq![(rc.start as int, rc.end as int)]);
    assert(parent.leaves() =~= seq![(lc.start as int, lc.end as int), (rc.start as int, rc.end as int)]);
}

/// The shape of a median-split hierarchy: a node over at least `max_leaf_size`
/// primitives is split at the middle of its range (the left child taking the
/// smaller half), a smaller node is a leaf; no node is empty.
pub open spec fn median_shaped<B>(node: BvhNode<B>, max_leaf_size: usize) -> bool
    decreases node,
{
    &&& node.start < node.end
    &&& if node.end - node.start < max_leaf_size {
        node.lc is None && node.rc is None
    } else {
        match (node.lc, node.rc) {
            (Some(l), Some(r)) => {
                &&& l.start == node.start
                &&& l.end == node.start + (node.end - node.start) / 2
                &&& r.start == l.end
                &&& r.end == node.end
                &&& median_shaped(*l, max_leaf_size)
                &&& median_shaped(*r, max_leaf_size)
            },
            _ => false,
        }
    }
}

/// Every node's box is what `bbox_of` gave for the node's range.
pub open spec fn boxes_from<B, F: Fn(usize, usize) -> B>(node: BvhNode<B>, bbox_of: F) -> bool
    decreases node,
{
    &&& call_ensures(bbox_of, (node.start, node.end), node.bbox)
    &&& match (node.lc, node.rc) {
        (Some(l), Some(r)) => boxes_from(*l, bbox_of) && boxes_from(*r, bbox_of),
        _ => true,
    }
}

fn build_median_node<B, F: Fn(usize, usize) -> B>(start: usize, end: usize, max_leaf_size: usize, bbox_of: &F) -> (res: Box<BvhNode<B>>)
    requires
        start < end,
        max_leaf_size >= 2,
        forall|s: usize, e: usize| call_requires(*bbox_of, (s, e)),
    ensures
        res.start == start,
        res.end == end,
        median_shaped(*res, max_leaf_size),
        boxes_from(*res, *bbox_of),
    decreases end - start,
{
    let bbox = bbox_of(start, end);
    let mut node = Box::new(BvhNode::new(start, end, bbox));
    if end - start >= max_leaf_size {
        let mid = start + (end - start) / 2;
        let lc = build_median_node(start, mid, max_leaf_size, bbox_of);
        let rc = build_median_node(mid, end, max_leaf_size, bbox_of);
        node.lc = Some(lc);
        node.rc = Some(rc);
    }
    node
}

/// Builds a hierarchy over `count` primitives by splitting every node of at least
/// `max_leaf_size` primitives at the middle of its range; each node's box is
/// `bbox_of(start, end)`. No primitives, no tree.
pub fn build_median_tree<B, F: Fn(usize, usize) -> B>(count: usize, max_leaf_size: usize, bbox_of: &F) -> (res: Option<Box<BvhNode<B>>>)
    requires
        max_leaf_size >= 2,
        forall|s: usize, e: usize| call_requires(*bbox_of, (s, e)),
    ensures
        count == 0 ==> res is None,
        count > 0 ==> (res matches Some(root) && root.start == 0 && root.end == count && median_shaped(
            *root,
            max_leaf_size,
        ) && boxes_from(*root, *bbox_of)),
{
    if count == 0 {
        None
    } else {
        Some(build_median_node(0, count, max_leaf_size, bbox_of))
    }
}

/// A median-shaped hierarchy is well formed, and each of its leaves holds at
/// least one and fewer than `max_leaf_size` primitives.
pub proof fn median_tree_wf<B>(node: BvhNode<B>, max_leaf_size: usize)
    requires
        median_shaped(node, max_leaf_size),
        max_leaf_size >= 2,
    ensures
        node.wf(),
        forall|k: int| 0 <= k < node.leaves().len() ==> 1 <= #[trigger] node.leaves()[k].1 - node.leaves()[k].0 < max_leaf_size,
    decreases node,
{
    match (node.lc, node.rc) {
        (Some(l), Some(r)) => {
            median_tree_wf(*l, max_leaf_size);
            median_tree_wf(*r, max_leaf_size);
            let a = l.leaves();
            let b = r.leaves();
            assert(node.leaves() == a + b);
            assert forall|k: int| 0 <= k < (a + b).len() implies 1 <= #[trigger] (a + b)[k].1 - (a + b)[k].0 < max_leaf_size by {
                if k < a.len() {
                    assert(1 <= a[k].1 - a[k].0 < max_leaf_size);
                } else {
                    assert(1 <= b[k - a.len()].1 - b[k - a.len()].0 < max_leaf_size);
                }
            }
        },
        _ => {},
    }
}

/// How the caller proposes to split a node: primitive positions sorted into
/// buckets, the first `split` buckets going left, and the boxes of the two sides.
pub struct SplitPlan<B> {
    pub split: usize,
    pub bucket_number: usize,
    pub left_bbox: B,
    pub right_bbox: B,
    pub prim_indices: Vec<Vec<usize>>,
}

/// The buckets of a plan for node `[start, end)` can be split by [`split_at`]: the
/// counts fit, every listed position lies in the node, and no position is listed
/// on both sides.
pub open spec fn plan_fits(buckets: Seq<Seq<usize>>, split: int, bucket_number: int, start: int, end: int) -> bool {
    &&& split <= bucket_number <= buckets.len()
    &&& buckets_within(buckets, bucket_number, start, end)
    &&& sides_apart(buckets, split, bucket_number)
}

/// Checks [`plan_fits`] at run time.
fn check_plan(prim_indices: &Vec<Vec<usize>>, split: usize, bucket_number: usize, start: usize, end: usize) -> (ok: bool)
    requires
        start <= end,
    ensures
        ok == plan_fits(buckets_view(prim_indices@), split as int, bucket_number as int, start as int, end as int),
{
    if !(split <= bucket_number && bucket_number <= prim_indices.len()) {
        return false;
    }
    let ghost bv = buckets_view(prim_indices@);
    let mut b: usize = 0;
    while b < bucket_number
        invariant
            b <= bucket_number <= prim_indices.len(),
            bv == buckets_view(prim_indices@),
            buckets_within(bv, b as int, start as int, end as int),
        decreases bucket_number - b,
    {
        let bucket = &prim_indices[b];
        let mut k: usize = 0;
        while k < bucket.len()
            invariant
                b < bucket_number <= prim_indices.len(),
                bv == buckets_view(prim_indices@),
                *bucket == prim_indices@[b as int],
                k <= bucket.len(),
                buckets_within(bv, b as int, start as int, end as int),
                forall|k1: int| 0 <= k1 < k ==> start <= #[trigger] bv[b as int][k1] < end,
            decreases bucket.len() - k,
        {
            let idx = bucket[k];
            proof {
                assert(bv[b as int][k as int] == idx);
            }
            if idx < start || idx >= end {
                proof {
                    assert(!buckets_within(bv, bucket_number as int, start as int, end as int));
                }
                return false;
            }
            k = k + 1;
        }
        proof {
            assert forall|b1: int, k1: int| 0 <= b1 < b + 1 && 0 <= k1 < bv[b1].len() implies start <= #[trigger] bv[b1][k1]
                < end by {
                if b1 == b {
                    assert(start <= bv[b as int][k1] < end);
                }
            }
        }
        b = b + 1;
    }
    let in_left = mark_buckets(prim_indices, 0, split);
    let ghost left = bucket_set(bv, 0, split as int);
    let ghost right = bucket_set(bv, split as int, bucket_number as int);
    let mut b: usize = split;
    while b < bucket_number
        invariant
            split <= b <= bucket_number <= prim_indices.len(),
            bv == buckets_view(prim_indices@),
            left == bucket_set(bv, 0, split as int),
            buckets_within(bv, bucket_number as int, start as int, end as int),
            forall|i: usize| #[trigger] in_left@.contains(i) == left.contains(i as int),
            forall|b1: int, k1: int| split <= b1 < b && 0 <= k1 < bv[b1].len() ==> !left.contains(#[trigger] bv[b1][k1] as int),
        decreases bucket_number - b,
    {
        let bucket = &prim_indices[b];
        let mut k: usize = 0;
        while k < bucket.len()
            invariant
                split <= b < bucket_number <= prim_indices.len(),
                bv == buckets_view(prim_indices@),
                left == bucket_set(bv, 0, split as int),
                *bucket == prim_indices@[b as int],
                k <= bucket.len(),
                buckets_within(bv, bucket_number as int, start as int, end as int),
                forall|i: usize| #[trigger] in_left@.contains(i) == left.contains(i as int),
                forall|b1: int, k1: int| split <= b1 < b && 0 <= k1 < bv[b1].len() ==> !left.contains(#[trigger] bv[b1][k1] as int),
                forall|k1: int| 0 <= k1 < k ==> !left.contains(#[trigger] bv[b as int][k1] as int),
            decreases bucket.len() - k,
        {
            let idx = bucket[k];
            proof {
                assert(bv[b as int][k as int] == idx);
                assert(start <= idx < end);
            }
            if in_left.contains(&idx) {
                proof {
                    assert(left.contains(idx as int));
                    assert(bucket_set(bv, split as int, bucket_number as int).contains(idx as int));
                    assert(!sides_apart(bv, split as int, bucket_number as int));
                }
                return false;
            }
            k = k + 1;
        }
        proof {
            assert forall|b1: int, k1: int| split <= b1 < b + 1 && 0 <= k1 < bv[b1].len() implies !left.contains(
                #[trigger] bv[b1][k1] as int,
            ) by {
                if b1 == b {
                    assert(!left.contains(bv[b as int][k1] as int));
                }
            }
        }
        b = b + 1;
    }
    proof {
        assert forall|i: int| #[trigger] left.contains(i) implies !right.contains(i) by {
            if right.contains(i) {
                let (b1, k1) = choose|b1: int, k1: int|
                    split <= b1 < bucket_number && 0 <= k1 < bv[b1].len() && #[trigger] bv[b1][k1] == i;
                assert(!left.contains(bv[b1][k1] as int));
            }
        }
    }
    true
}

/// `new` is `old` with the positions `[start, end)` rearranged among themselves.
#[verifier::opaque]
pub open spec fn rearranged<P>(old: Seq<P>, new: Seq<P>, start: int, end: int) -> bool {
    &&& new.len() == old.len()
    &&& exists|perm: Seq<int>| {
        &&& is_permutation_on(perm, start, end, old.len() as int)
        &&& forall|i: int| 0 <= i < old.len() ==> #[trigger] new[i] == old[perm[i]]
    }
}

proof fn lemma_rearranged_refl<P>(s: Seq<P>, start: int, end: int)
    requires
        0 <= start <= end <= s.len(),
    ensures
        rearranged(s, s, start, end),
{
    reveal(rearranged);
    let perm = Seq::new(s.len(), |i: int| i);
    assert(is_permutation_on(perm, start, end, s.len() as int));
}

proof fn lemma_rearranged_trans<P>(a: Seq<P>, b: Seq<P>, c: Seq<P>, start: int, end: int, s2: int, e2: int)
    requires
        rearranged(a, b, start, end),
        rearranged(b, c, s2, e2),
        0 <= start <= s2 <= e2 <= end <= a.len(),
    ensures
        rearranged(a, c, start, end),
{
    reveal(rearranged);
    let p1 = choose|perm: Seq<int>| is_permutation_on(perm, start, end, a.len() as int) && forall|i: int| 0 <= i < a.len() ==> #[trigger] b[i] == a[perm[i]];
    let p2 = choose|perm: Seq<int>| is_permutation_on(perm, s2, e2, b.len() as int) && forall|i: int| 0 <= i < b.len() ==> #[trigger] c[i] == b[perm[i]];
    let p = Seq::new(a.len(), |i: int| p1[p2[i]]);
    assert forall|i: int| 0 <= i < a.len() implies #[trigger] c[i] == a[p[i]] by {
        assert(c[i] == b[p2[i]]);
        if s2 <= i < e2 {
            assert(s2 <= p2[i] < e2);
        } else {
            assert(p2[i] == i);
        }
        assert(b[p2[i]] == a[p1[p2[i]]]);
    }
    assert forall|i: int| start <= i < end implies start <= #[trigger] p[i] < end by {
        if s2 <= i < e2 {
            assert(s2 <= p2[i] < e2);
        } else {
            assert(p2[i] == i);
        }
        assert(start <= p1[p2[i]] < end);
    }
    assert forall|i: int| 0 <= i < a.len() && !(start <= i < end) implies #[trigger] p[i] == i by {
        assert(p2[i] == i);
    }
    assert forall|i: int, j: int| start <= i < end && start <= j < end && i != j implies #[trigger] p[i] != #[trigger] p[j] by {
        let pi = p2[i];
        let pj = p2[j];
        if s2 <= i < e2 {
            assert(s2 <= p2[i] < e2);
        } else {
            assert(p2[i] == i);
        }
        if s2 <= j < e2 {
            assert(s2 <= p2[j] < e2);
        } else {
            assert(p2[j] == j);
        }
        assert(pi != pj);
        assert(p1[pi] != p1[pj]);
    }
    assert(is_permutation_on(p, start, end, a.len() as int));
}

/// The shape of a hierarchy built by [`build_bvh`]: no node is empty, and an inner
/// node holds more than `max_leaf_size` primitives.
pub open spec fn bvh_shaped<B>(node: BvhNode<B>, max_leaf_size: usize) -> bool
    decreases node,
{
    &&& node.start < node.end
    &&& match (node.lc, node.rc) {
        (Some(l), Some(r)) => {
            &&& node.end - node.start > max_leaf_size
            &&& bvh_shaped(*l, max_leaf_size)
            &&& bvh_shaped(*r, max_leaf_size)
        },
        (None, None) => true,
        _ => false,
    }
}

/// The left buckets of a plan: the positions they list.
pub open spec fn plan_left<B>(p: SplitPlan<B>) -> Set<int> {
    bucket_set(buckets_view(p.prim_indices@), 0, p.split as int)
}

/// How many positions of `[start, end)` a plan sends left.
pub open spec fn plan_left_count<B>(p: SplitPlan<B>, start: int, end: int) -> nat {
    count_in(plan_left(p), start, end, true)
}

/// A plan splits the node `[start, end)`: its buckets fit the node and both sides
/// get at least one position.
pub open spec fn plan_splits<B>(p: SplitPlan<B>, start: int, end: int) -> bool {
    &&& plan_fits(buckets_view(p.prim_indices@), p.split as int, p.bucket_number as int, start, end)
    &&& 0 < plan_left_count(p, start, end) < end - start
}

/// The right buckets of a plan: the positions they list.
pub open spec fn plan_right<B>(p: SplitPlan<B>) -> Set<int> {
    bucket_set(buckets_view(p.prim_indices@), p.split as int, p.bucket_number as int)
}

/// `after` is `before` with the node `[start, end)` split by the plan as
/// [`split_at`] splits it.
pub open spec fn split_by_plan<P, B>(before: Seq<P>, after: Seq<P>, p: SplitPlan<B>, start: int, end: int) -> bool {
    split_moves(before, after, plan_left(p), plan_right(p), start, start + plan_left_count(p, start, end), end)
}

/// A trigger helper that always holds: it names the plan behind an inner node
/// and the primitives after its split and after its left child was built, so that
/// the quantifier in [`built`] has a term to match on (the other terms that
/// mention these values are recursive calls).
pub open spec fn chosen_split<P, B>(p: SplitPlan<B>, split: Vec<P>, left_built: Vec<P>) -> bool {
    true
}

/// `node` is what [`build_bvh`] makes of the primitives `before` over the node's
/// range, leaving them as `after`: a node of at most `max_leaf_size` primitives is
/// a leaf; a larger one asks `plan` (with the primitives as they are, the range and
/// the node's box) and is split as [`split_at`] splits by that plan, the children
/// getting the plan's boxes and being built in turn, left then right, when the
/// plan splits the node (see [`plan_splits`]); a plan that lists a position outside
/// the node, lists one on both sides, or leaves a side empty makes a leaf.
pub open spec fn built<P, B, F: Fn(&Vec<P>, usize, usize, &B) -> SplitPlan<B>>(
    node: BvhNode<B>,
    plan: F,
    before: Vec<P>,
    after: Vec<P>,
    max_leaf_size: usize,
) -> bool
    decreases node,
{
    if node.end - node.start <= max_leaf_size {
        node.lc is None && node.rc is None && after@ == before@
    } else {
        match (node.lc, node.rc) {
            (Some(l), Some(r)) => exists|p: SplitPlan<B>, v1: Vec<P>, v2: Vec<P>|
                #[trigger] chosen_split(p, v1, v2) && call_ensures(plan, (&before, node.start, node.end, &node.bbox), p)
                    && plan_splits(p, node.start as int, node.end as int)
                    && split_by_plan(before@, v1@, p, node.start as int, node.end as int)
                    && l.start == node.start && l.end == node.start + plan_left_count(p, node.start as int, node.end as int)
                    && r.start == l.end && r.end == node.end
                    && l.bbox == p.left_bbox && r.bbox == p.right_bbox
                    && built(*l, plan, v1, v2, max_leaf_size) && built(*r, plan, v2, after, max_leaf_size),
            (None, None) => after@ == before@ && exists|p: SplitPlan<B>|
                #[trigger] call_ensures(plan, (&before, node.start, node.end, &node.bbox), p)
                    && !plan_splits(p, node.start as int, node.end as int),
            _ => false,
        }
    }
}

fn build_bvh_node<P, B, F: Fn(&Vec<P>, usize, usize, &B) -> SplitPlan<B>>(
    primitives: &mut Vec<P>,
    start: usize,
    end: usize,
    bbox: B,
    max_leaf_size: usize,
    plan: &F,
) -> (res: Box<BvhNode<B>>)
    requires
        start < end <= old(primitives).len(),
        forall|v: &Vec<P>, s: usize, e: usize, bx: &B| call_requires(*plan, (v, s, e, bx)),
    ensures
        res.start == start,
        res.end == end,
        res.bbox == bbox,
        res.wf(),
        bvh_shaped(*res, max_leaf_size),
        final(primitives)@.len() == old(primitives)@.len(),
        rearranged(old(primitives)@, final(primitives)@, start as int, end as int),
        built(*res, *plan, *old(primitives), *final(primitives), max_leaf_size),
    decreases end - start,
{
    let ghost before = primitives@;
    let ghost before_vec = *primitives;
    proof {
        lemma_rearranged_refl(before, start as int, end as int);
    }
    let mut node = Box::new(BvhNode::new(start, end, bbox));
    if end - start <= max_leaf_size {
        return node;
    }
    let p = plan(&*primitives, start, end, &node.bbox);
    let ghost pv = p;
    let SplitPlan { split, bucket_number, left_bbox, right_bbox, mut prim_indices } = p;
    if !check_plan(&prim_indices, split, bucket_number, start, end) {
        return node;
    }
    let (lc, rc) = split_at(split, bucket_number, left_bbox, right_bbox, &mut prim_indices, primitives, start, end);
    let ghost after_split = primitives@;
    let ghost split_vec = *primitives;
    if lc.size() == 0 || rc.size() == 0 {
        return node;
    }
    let BvhNode { bbox: lbox, start: ls, end: le, .. } = *lc;
    let BvhNode { bbox: rbox, start: rs, end: re, .. } = *rc;
    let lnode = build_bvh_node(primitives, ls, le, lbox, max_leaf_size, plan);
    let ghost after_left = primitives@;
    let ghost left_vec = *primitives;
    let rnode = build_bvh_node(primitives, rs, re, rbox, max_leaf_size, plan);
    proof {
        lemma_rearranged_trans(before, after_split, after_left, start as int, end as int, ls as int, le as int);
        lemma_rearranged_trans(before, after_left, primitives@, start as int, end as int, rs as int, re as int);
        assert(chosen_split(pv, split_vec, left_vec));
    }
    node.lc = Some(lnode);
    node.rc = Some(rnode);
    node
}

/// Builds the hierarchy over all of `primitives`, reordering them so that every
/// node's primitives are contiguous. The root gets `root_bbox`. A node of more
/// than `max_leaf_size` primitives is split as the caller's `plan` proposes for it
/// (see [`split_at`] and [`built`]); it stays a leaf when the plan lists a position
/// outside the node or on both sides, or would leave one side empty. No
/// primitives, no tree.
pub fn build_bvh<P, B, F: Fn(&Vec<P>, usize, usize, &B) -> SplitPlan<B>>(
    primitives: &mut Vec<P>,
    root_bbox: B,
    max_leaf_size: usize,
    plan: &F,
) -> (res: Option<Box<BvhNode<B>>>)
    requires
        forall|v: &Vec<P>, s: usize, e: usize, bx: &B| call_requires(*plan, (v, s, e, bx)),
    ensures
        old(primitives)@.len() == 0 ==> res is None && final(primitives)@ == old(primitives)@,
        old(primitives)@.len() > 0 ==> (res matches Some(root) && root.start == 0 && root.end == old(
            primitives,
        )@.len() && root.bbox == root_bbox && root.wf() && bvh_shaped(*root, max_leaf_size)
            && built(*root, *plan, *old(primitives), *final(primitives), max_leaf_size)),
        rearranged(old(primitives)@, final(primitives)@, 0, old(primitives)@.len() as int),
{
    if primitives.len() == 0 {
        proof {
            lemma_rearranged_refl(primitives@, 0, 0);
        }
        return None;
    }
    let n = primitives.len();
    Some(build_bvh_node(primitives, 0, n, root_bbox, max_leaf_size, plan))
}

/// The search can find a hit under `node`: the node's box can pass `hits_box` and
/// either a primitive of the leaf can pass `hits_prim` or the search can find a hit
/// under one of the children.
pub open spec fn may_hit<B, FB: Fn(&B) -> bool, FP: Fn(usize) -> bool>(node: BvhNode<B>, hits_box: FB, hits_prim: FP) -> bool
    decreases node,
{
    &&& call_ensures(hits_box, (&node.bbox,), true)
    &&& match (node.lc, node.rc) {
        (Some(l), Some(r)) => may_hit(*r, hits_box, hits_prim) || may_hit(*l, hits_box, hits_prim),
        _ => exists|i: usize| node.start <= i < node.end && #[trigger] call_ensures(hits_prim, (i,), true),
    }
}

/// The search can come back empty-handed from `node`: the node's box can fail
/// `hits_box`, or every primitive of the leaf can fail `hits_prim`, or the search can
/// come back empty from both children.
pub open spec fn may_miss<B, FB: Fn(&B) -> bool, FP: Fn(usize) -> bool>(node: BvhNode<B>, hits_box: FB, hits_prim: FP) -> bool
    decreases node,
{
    ||| call_ensures(hits_box, (&node.bbox,), false)
    ||| match (node.lc, node.rc) {
        (Some(l), Some(r)) => may_miss(*r, hits_box, hits_prim) && may_miss(*l, hits_box, hits_prim),
        _ => forall|i: usize| node.start <= i < node.end ==> #[trigger] call_ensures(hits_prim, (i,), false),
    }
}

/// Searches the hierarchy depth first, right child before left, skipping every
/// subtree whose box fails `hits_box`, and stops at the first leaf primitive (by
/// position) that passes `hits_prim`. With tests that always answer the same, the
/// result is exactly whether some primitive passes under boxes that all pass.
pub fn any_leaf_hit<B, FB: Fn(&B) -> bool, FP: Fn(usize) -> bool>(node: &BvhNode<B>, hits_box: &FB, hits_prim: &FP) -> (res: bool)
    requires
        forall|b: &B| call_requires(*hits_box, (b,)),
        forall|i: usize| call_requires(*hits_prim, (i,)),
    ensures
        res ==> may_hit(*node, *hits_box, *hits_prim),
        !res ==> may_miss(*node, *hits_box, *hits_prim),
    decreases node,
{
    let box_hit = hits_box(&node.bbox);
    if !box_hit {
        return false;
    }
    match (&node.lc, &node.rc) {
        (Some(l), Some(r)) => {
            if any_leaf_hit(&**r, hits_box, hits_prim) {
                true
            } else {
                any_leaf_hit(&**l, hits_box, hits_prim)
            }
        },
        _ => {
            let mut i = node.start;
            while i < node.end
                invariant
                    node.start <= i <= node.end || (node.end < node.start && i == node.start),
                    forall|k: usize| node.start <= k < i ==> #[trigger] call_ensures(*hits_prim, (k,), false),
                    forall|k: usize| call_requires(*hits_prim, (k,)),
                    call_ensures(*hits_box, (&node.bbox,), true),
                    !(node.lc is Some && node.rc is Some),
                decreases node.end - i,
            {
                let hit = hits_prim(i);
                if hit {
                    proof {
                        assert(call_ensures(*hits_prim, (i,), true));
                        assert(node.start <= i < node.end);
                    }
                    return true;
                }
                i = i + 1;
            }
            false
        },
    }
}

/// The positions `start, start + 1, ..., end - 1`.
pub open spec fn positions(start: usize, end: usize) -> Seq<usize> {
    Seq::new((end - start) as nat, |i: int| (start + i) as usize)
}

/// `out` is what a search of `node` can collect: nothing when the node's box fails
/// `passes`; otherwise a leaf's positions in order, or what the right child gives
/// followed by what the left child gives.
pub open spec fn collects<B, FB: Fn(&B) -> bool>(node: BvhNode<B>, passes: FB, out: Seq<usize>) -> bool
    decreases node,
{
    ||| call_ensures(passes, (&node.bbox,), false) && out.len() == 0
    ||| call_ensures(passes, (&node.bbox,), true) && match (node.lc, node.rc) {
        (Some(l), Some(r)) => exists|k: int|
            0 <= k <= out.len() && collects(*r, passes, #[trigger] out.take(k)) && collects(*l, passes, out.skip(k)),
        _ => out == positions(node.start, node.end),
    }
}

/// Lists the positions of every leaf that can be reached from `node` through boxes
/// that pass `passes`, depth first with the right child before the left, and each
/// leaf's positions in order.
pub fn leaves_reached<B, FB: Fn(&B) -> bool>(node: &BvhNode<B>, passes: &FB) -> (res: Vec<usize>)
    requires
        node.wf(),
        forall|b: &B| call_requires(*passes, (b,)),
    ensures
        collects(*node, *passes, res@),
    decreases node,
{
    if !passes(&node.bbox) {
        return Vec::new();
    }
    match (&node.lc, &node.rc) {
        (Some(l), Some(r)) => {
            let mut res = leaves_reached(&**r, passes);
            let ghost right = res@;
            let mut left = leaves_reached(&**l, passes);
            let ghost left_view = left@;
            res.append(&mut left);
            proof {
                assert(res@.take(right.len() as int) =~= right);
                assert(res@.skip(right.len() as int) =~= left_view);
            }
            res
        },
        _ => {
            let mut res: Vec<usize> = Vec::new();
            let mut i = node.start;
            while i < node.end
                invariant
                    node.start <= i <= node.end,
                    res@ =~= positions(node.start, i),
                decreases node.end - i,
            {
                res.push(i);
                i = i + 1;
            }
            res
        },
    }
}

/// A trigger helper that always holds: it names the state reached between
/// searching the two children of a node, so that the quantifier in [`folds`] has
/// a term to match on (the other terms that mention it are recursive calls).
pub open spec fn a_state<S>(s: S) -> bool {
    true
}

/// `s1` is a state that `visit` can reach from `s0` by visiting the positions `ps`
/// in order.
pub open spec fn visits<S, FV: Fn(S, usize) -> S>(visit: FV, ps: Seq<usize>, s0: S, s1: S) -> bool
    decreases ps.len(),
{
    if ps.len() == 0 {
        s1 == s0
    } else {
        exists|mid: S|
            visits(visit, ps.drop_last(), s0, mid) && #[trigger] call_ensures(visit, (mid, ps.last()), s1)
    }
}

/// `s1` is a state that a search of `node` can end in when it starts in `s0`: the
/// node is skipped, with the state unchanged, when `enter` refuses its box in that
/// state; otherwise a leaf's positions are visited in order, and an inner node's
/// right child is searched before its left child, which starts where the right one
/// ended.
pub open spec fn folds<B, S, FE: Fn(&B, &S) -> bool, FV: Fn(S, usize) -> S>(
    node: BvhNode<B>,
    enter: FE,
    visit: FV,
    s0: S,
    s1: S,
) -> bool
    decreases node,
{
    ||| call_ensures(enter, (&node.bbox, &s0), false) && s1 == s0
    ||| call_ensures(enter, (&node.bbox, &s0), true) && match (node.lc, node.rc) {
        (Some(l), Some(r)) => exists|mid: S|
            #[trigger] a_state(mid) && folds(*r, enter, visit, s0, mid) && folds(*l, enter, visit, mid, s1),
        _ => visits(visit, positions(node.start, node.end), s0, s1),
    }
}

/// Searches the hierarchy carrying a state: a node is entered only when `enter`
/// accepts its box in the current state, each primitive of an entered leaf is
/// visited in order (`visit` gives the next state), and the right child is
/// searched before the left one. With a state such as the nearest hit so far, the
/// boxes passed over depend on what was found before.
pub fn fold_leaves<B, S, FE: Fn(&B, &S) -> bool, FV: Fn(S, usize) -> S>(
    node: &BvhNode<B>,
    state: S,
    enter: &FE,
    visit: &FV,
) -> (res: S)
    requires
        node.wf(),
        forall|b: &B, s: &S| call_requires(*enter, (b, s)),
        forall|s: S, i: usize| call_requires(*visit, (s, i)),
    ensures
        folds(*node, *enter, *visit, state, res),
    decreases node,
{
    if !enter(&node.bbox, &state) {
        return state;
    }
    match (&node.lc, &node.rc) {
        (Some(l), Some(r)) => {
            let mid = fold_leaves(&**r, state, enter, visit);
            let ghost m = mid;
            let res = fold_leaves(&**l, mid, enter, visit);
            proof {
                assert(a_state(m));
            }
            res
        },
        _ => {
            let ghost s0 = state;
            let mut s = state;
            let mut i = node.start;
            proof {
                assert(positions(node.start, node.start) =~= Seq::<usize>::empty());
            }
            while i < node.end
                invariant
                    node.start <= i <= node.end,
                    forall|s: S, i: usize| call_requires(*visit, (s, i)),
                    visits(*visit, positions(node.start, i), s0, s),
                decreases node.end - i,
            {
                let ghost before = s;
                s = visit(s, i);
                proof {
                    assert(positions(node.start, (i + 1) as usize).drop_last() =~= positions(node.start, i));
                    assert(positions(node.start, (i + 1) as usize).last() == i);
                }
                i = i + 1;
            }
            s
        },
    }
}

/// What a search of a well-formed node collects lies within the node's range and
/// lists no position twice, so each primitive is taken into account at most once.
pub proof fn collected_positions_distinct<B, FB: Fn(&B) -> bool>(node: BvhNode<B>, passes: FB, out: Seq<usize>)
    requires
        node.wf(),
        collects(node, passes, out),
    ensures
        forall|i: int| 0 <= i < out.len() ==> node.start <= #[trigger] out[i] < node.end,
        forall|i: int, j: int| 0 <= i < j < out.len() ==> #[trigger] out[i] != #[trigger] out[j],
    decreases node,
{
    if out.len() == 0 {
        return;
    }
    match (node.lc, node.rc) {
        (Some(l), Some(r)) => {
            let k = choose|k: int|
                0 <= k <= out.len() && collects(*r, passes, #[trigger] out.take(k)) && collects(*l, passes, out.skip(k));
            let a = out.take(k);
            let b = out.skip(k);
            collected_positions_distinct(*r, passes, a);
            collected_positions_distinct(*l, passes, b);
            assert(l.start <= l.end && r.start <= r.end) by {
                assert(l.wf() && r.wf());
            }
            assert forall|i: int| 0 <= i < out.len() implies node.start <= #[trigger] out[i] < node.end by {
                if i < k {
                    assert(out[i] == a[i]);
                } else {
                    assert(out[i] == b[i - k]);
                }
            }
            assert forall|i: int, j: int| 0 <= i < j < out.len() implies #[trigger] out[i] != #[trigger] out[j] by {
                if j < k {
                    assert(out[i] == a[i] && out[j] == a[j]);
                } else if i >= k {
                    assert(out[i] == b[i - k] && out[j] == b[j - k]);
                } else {
                    assert(out[i] == a[i] && out[j] == b[j - k]);
                }
            }
        },
        _ => {},
    }
}

proof fn lemma_rearranged_onto<P>(before: Seq<P>, after: Seq<P>, start: int, end: int) -> (res: (Seq<int>, Seq<int>))
    requires
        0 <= start <= end <= before.len(),
        rearranged(before, after, start, end),
    ensures
        forall|i: int| start <= i < end ==> start <= #[trigger] res.0[i] < end && after[i] == before[res.0[i]],
        forall|j: int| start <= j < end ==> start <= #[trigger] res.1[j] < end && res.0[res.1[j]] == j,
{
    reveal(rearranged);
    let perm = choose|perm: Seq<int>|
        is_permutation_on(perm, start, end, before.len() as int) && forall|i: int|
            0 <= i < before.len() ==> #[trigger] after[i] == before[perm[i]];
    let x = vstd::set_lib::set_int_range(start, end);
    let f = |i: int| perm[i];
    let y = x.map(f);
    vstd::set_lib::lemma_int_range(start, end);
    assert(vstd::relations::injective_on(f, x)) by {
        assert forall|a: int, b: int| x.contains(a) && x.contains(b) && #[trigger] f(a) == #[trigger] f(b) implies a == b by {
            if a != b {
                assert(perm[a] != perm[b]);
            }
        }
    }
    vstd::set_lib::lemma_map_size(x, y, f);
    assert(y.subset_of(x)) by {
        assert forall|b: int| y.contains(b) implies x.contains(b) by {
            let a = choose|a: int| x.contains(a) && f(a) == b;
            assert(start <= perm[a] < end);
        }
    }
    vstd::set_lib::lemma_subset_equality(y, x);
    let inv = Seq::new(before.len(), |j: int| choose|i: int| start <= i < end && perm[i] == j);
    assert forall|j: int| start <= j < end implies start <= #[trigger] inv[j] < end && perm[inv[j]] == j by {
        assert(x.contains(j));
        assert(y.contains(j));
        let i = choose|i: int| x.contains(i) && f(i) == j;
        assert(start <= i < end && perm[i] == j);
    }
    assert forall|i: int| start <= i < end implies start <= #[trigger] perm[i] < end && after[i] == before[perm[i]] by {
        assert(after[i] == before[perm[i]]);
    }
    (perm, inv)
}

/// Rearranging `[start, end)` loses no item: each item that was in the range is
/// somewhere in it afterwards; `at[j]` is where the item from `j` went.
pub proof fn rearranged_keeps_items<P>(before: Seq<P>, after: Seq<P>, start: int, end: int) -> (at: Seq<int>)
    requires
        0 <= start <= end <= before.len(),
        rearranged(before, after, start, end),
    ensures
        forall|j: int| start <= j < end ==> start <= #[trigger] at[j] < end && after[at[j]] == before[j],
{
    let res = lemma_rearranged_onto(before, after, start, end);
    let perm = res.0;
    let inv = res.1;
    assert forall|j: int| start <= j < end implies start <= #[trigger] inv[j] < end && after[inv[j]] == before[j] by {
        assert(start <= perm[inv[j]] < end);
    }
    inv
}

/// Rearranging `[start, end)` adds no item: each item in the range afterwards was
/// somewhere in it before; `from[i]` is where the item now at `i` came from.
pub proof fn rearranged_adds_no_items<P>(before: Seq<P>, after: Seq<P>, start: int, end: int) -> (from: Seq<int>)
    requires
        0 <= start <= end <= before.len(),
        rearranged(before, after, start, end),
    ensures
        forall|i: int| start <= i < end ==> start <= #[trigger] from[i] < end && after[i] == before[from[i]],
{
    let res = lemma_rearranged_onto(before, after, start, end);
    res.0
}

/// Every box of the hierarchy lets a search through whenever `hit` holds of a
/// primitive under it: a box test never answers `false` for a node that has a
/// primitive for which `hit` holds.
pub open spec fn boxes_cover<B, FB: Fn(&B) -> bool>(node: BvhNode<B>, hits_box: FB, hit: spec_fn(usize) -> bool) -> bool
    decreases node,
{
    &&& forall|i: usize| node.start <= i < node.end && #[trigger] hit(i) ==> !call_ensures(hits_box, (&node.bbox,), false)
    &&& match (node.lc, node.rc) {
        (Some(l), Some(r)) => boxes_cover(*l, hits_box, hit) && boxes_cover(*r, hits_box, hit),
        _ => true,
    }
}

/// When the primitive test answers `hit` and every box covers the primitives under
/// it, the pruned search of [`any_leaf_hit`] answers as testing every primitive of
/// the node would: it can find a hit only if some primitive is hit, and it can come
/// back empty only if none is.
pub proof fn search_agrees_with_testing_every_primitive<B, FB: Fn(&B) -> bool, FP: Fn(usize) -> bool>(
    node: BvhNode<B>,
    hits_box: FB,
    hits_prim: FP,
    hit: spec_fn(usize) -> bool,
)
    requires
        node.wf(),
        forall|i: usize, b: bool| node.start <= i < node.end && #[trigger] call_ensures(hits_prim, (i,), b) ==> b == hit(i),
        boxes_cover(node, hits_box, hit),
    ensures
        may_hit(node, hits_box, hits_prim) ==> exists|i: usize| node.start <= i < node.end && #[trigger] hit(i),
        may_miss(node, hits_box, hits_prim) ==> forall|i: usize| node.start <= i < node.end ==> !#[trigger] hit(i),
    decreases node,
{
    if call_ensures(hits_box, (&node.bbox,), false) {
        assert forall|i: usize| node.start <= i < node.end implies !#[trigger] hit(i) by {
            if hit(i) {
                assert(!call_ensures(hits_box, (&node.bbox,), false));
            }
        }
    }
    match (node.lc, node.rc) {
        (Some(l), Some(r)) => {
            assert(l.wf() && r.wf());
            assert(l.start == node.start && l.end == r.start && r.end == node.end);
            assert(l.start <= l.end && r.start <= r.end);
            search_agrees_with_testing_every_primitive(*l, hits_box, hits_prim, hit);
            search_agrees_with_testing_every_primitive(*r, hits_box, hits_prim, hit);
            if may_hit(node, hits_box, hits_prim) {
                if may_hit(*r, hits_box, hits_prim) {
                    let i = choose|i: usize| r.start <= i < r.end && #[trigger] hit(i);
                    assert(hit(i));
                } else {
                    let i = choose|i: usize| l.start <= i < l.end && #[trigger] hit(i);
                    assert(hit(i));
                }
            }
            if may_miss(node, hits_box, hits_prim) && !call_ensures(hits_box, (&node.bbox,), false) {
                assert forall|i: usize| node.start <= i < node.end implies !#[trigger] hit(i) by {
                    if i < l.end {
                        assert(l.start <= i < l.end);
                    } else {
                        assert(r.start <= i < r.end);
                    }
                }
            }
        },
        _ => {
            if may_hit(node, hits_box, hits_prim) {
                let i = choose|i: usize| node.start <= i < node.end && #[trigger] call_ensures(hits_prim, (i,), true);
                assert(hit(i));
            }
            if may_miss(node, hits_box, hits_prim) && !call_ensures(hits_box, (&node.bbox,), false) {
                assert forall|i: usize| node.start <= i < node.end implies !#[trigger] hit(i) by {
                    assert(call_ensures(hits_prim, (i,), false));
                }
            }
        },
    }
}

/// For a tree that [`build_bvh`] built over `before`, leaving the primitives as
/// `after`: when the primitive test at a position answers `hit` of the primitive
/// now there and every box covers the primitives under it, the pruned search can
/// find a hit only if some primitive of `before` is hit, and can come back empty
/// only if none is.
pub proof fn built_tree_search_agrees_with_testing_every_primitive<P, B, FB: Fn(&B) -> bool, FP: Fn(usize) -> bool>(
    root: BvhNode<B>,
    before: Seq<P>,
    after: Seq<P>,
    hits_box: FB,
    hits_prim: FP,
    hit: spec_fn(P) -> bool,
)
    requires
        root.wf(),
        root.start == 0,
        root.end == before.len(),
        rearranged(before, after, 0, before.len() as int),
        forall|i: usize, b: bool| i < after.len() && #[trigger] call_ensures(hits_prim, (i,), b) ==> b == hit(after[i as int]),
        boxes_cover(root, hits_box, |i: usize| hit(after[i as int])),
    ensures
        may_hit(root, hits_box, hits_prim) ==> exists|j: int| 0 <= j < before.len() && #[trigger] hit(before[j]),
        may_miss(root, hits_box, hits_prim) ==> forall|j: int| 0 <= j < before.len() ==> !#[trigger] hit(before[j]),
{
    assert(after.len() == before.len()) by {
        reveal(rearranged);
    }
    let at = |i: usize| hit(after[i as int]);
    search_agrees_with_testing_every_primitive(root, hits_box, hits_prim, at);
    if may_hit(root, hits_box, hits_prim) {
        let i = choose|i: usize| root.start <= i < root.end && #[trigger] at(i);
        let from = rearranged_adds_no_items(before, after, 0, before.len() as int);
        let j = from[i as int];
        assert(0 <= j < before.len() && after[i as int] == before[j]);
        assert(hit(before[j]));
    }
    if may_miss(root, hits_box, hits_prim) {
        let to = rearranged_keeps_items(before, after, 0, before.len() as int);
        assert forall|j: int| 0 <= j < before.len() implies !#[trigger] hit(before[j]) by {
            let i = to[j];
            assert(0 <= i < before.len() && after[i] == before[j]);
            assert(!at(i as usize));
        }
    }
}

/// The smaller of a best distance so far and a new one.
pub open spec fn closer(best: int, d: int) -> int {
    if d < best {
        d
    } else {
        best
    }
}

/// `enter` refuses a node's box in a state only when no primitive under the node
/// is closer than the state's best distance `key`; the same holds for every node
/// below.
pub open spec fn enter_covers<B, S, FE: Fn(&B, &S) -> bool>(
    node: BvhNode<B>,
    enter: FE,
    key: spec_fn(S) -> int,
    dist: spec_fn(usize) -> int,
) -> bool
    decreases node,
{
    &&& forall|s: S, i: usize|
        #![trigger call_ensures(enter, (&node.bbox, &s), false), dist(i)]
        node.start <= i < node.end && call_ensures(enter, (&node.bbox, &s), false) ==> dist(i) >= key(s)
    &&& match (node.lc, node.rc) {
        (Some(l), Some(r)) => enter_covers(*l, enter, key, dist) && enter_covers(*r, enter, key, dist),
        _ => true,
    }
}

proof fn lemma_visits_closest<S, FV: Fn(S, usize) -> S>(
    visit: FV,
    ps: Seq<usize>,
    s0: S,
    s1: S,
    key: spec_fn(S) -> int,
    dist: spec_fn(usize) -> int,
)
    requires
        visits(visit, ps, s0, s1),
        forall|s: S, j: int, t: S| 0 <= j < ps.len() && #[trigger] call_ensures(visit, (s, ps[j]), t) ==> key(t) == closer(key(s), dist(ps[j])),
    ensures
        key(s1) <= key(s0),
        forall|j: int| 0 <= j < ps.len() ==> key(s1) <= #[trigger] dist(ps[j]),
        key(s1) == key(s0) || exists|j: int| 0 <= j < ps.len() && key(s1) == #[trigger] dist(ps[j]),
    decreases ps.len(),
{
    if ps.len() > 0 {
        let mid = choose|mid: S| visits(visit, ps.drop_last(), s0, mid) && #[trigger] call_ensures(visit, (mid, ps.last()), s1);
        let front = ps.drop_last();
        assert forall|s: S, j: int, t: S| 0 <= j < front.len() && #[trigger] call_ensures(visit, (s, front[j]), t) implies key(t) == closer(key(s), dist(front[j])) by {
            assert(front[j] == ps[j]);
        }
        lemma_visits_closest(visit, front, s0, mid, key, dist);
        assert(call_ensures(visit, (mid, ps[ps.len() - 1]), s1));
        assert forall|j: int| 0 <= j < ps.len() implies key(s1) <= #[trigger] dist(ps[j]) by {
            if j < ps.len() - 1 {
                assert(dist(front[j]) == dist(ps[j]));
            }
        }
        if key(s1) != key(s0) {
            if key(s1) == dist(ps[ps.len() - 1]) {
            } else {
                let j = choose|j: int| 0 <= j < front.len() && key(mid) == #[trigger] dist(front[j]);
                assert(dist(ps[j]) == key(s1));
            }
        }
    }
}

/// When visiting position `i` keeps the closer of the state's best distance `key`
/// and the primitive's distance `dist(i)`, and `enter` refuses a box only when
/// nothing under it is closer, the pruned search of [`fold_leaves`] ends with the
/// closest of the starting distance and the distances of all primitives of the
/// node, as visiting every primitive would.
pub proof fn fold_finds_closest<B, S, FE: Fn(&B, &S) -> bool, FV: Fn(S, usize) -> S>(
    node: BvhNode<B>,
    enter: FE,
    visit: FV,
    s0: S,
    s1: S,
    key: spec_fn(S) -> int,
    dist: spec_fn(usize) -> int,
)
    requires
        node.wf(),
        folds(node, enter, visit, s0, s1),
        forall|s: S, i: usize, t: S| node.start <= i < node.end && #[trigger] call_ensures(visit, (s, i), t) ==> key(t) == closer(key(s), dist(i)),
        enter_covers(node, enter, key, dist),
    ensures
        key(s1) <= key(s0),
        forall|i: usize| node.start <= i < node.end ==> key(s1) <= #[trigger] dist(i),
        key(s1) == key(s0) || exists|i: usize| node.start <= i < node.end && key(s1) == #[trigger] dist(i),
    decreases node,
{
    if call_ensures(enter, (&node.bbox, &s0), false) && s1 == s0 {
        assert forall|i: usize| node.start <= i < node.end implies key(s1) <= #[trigger] dist(i) by {
            assert(call_ensures(enter, (&node.bbox, &s0), false));
        }
    } else {
        match (node.lc, node.rc) {
            (Some(l), Some(r)) => {
                let mid = choose|mid: S| #[trigger] a_state(mid) && folds(*r, enter, visit, s0, mid) && folds(*l, enter, visit, mid, s1);
                assert(l.wf() && r.wf());
                assert(l.start == node.start && l.end == r.start && r.end == node.end);
                assert(l.start <= l.end && r.start <= r.end);
                fold_finds_closest(*r, enter, visit, s0, mid, key, dist);
                fold_finds_closest(*l, enter, visit, mid, s1, key, dist);
                assert forall|i: usize| node.start <= i < node.end implies key(s1) <= #[trigger] dist(i) by {
                    if i < l.end {
                        assert(l.start <= i < l.end);
                    } else {
                        assert(r.start <= i < r.end);
                    }
                }
                if key(s1) != key(s0) {
                    if key(s1) == key(mid) {
                        let i = choose|i: usize| r.start <= i < r.end && key(mid) == #[trigger] dist(i);
                        assert(node.start <= i < node.end);
                    } else {
                        let i = choose|i: usize| l.start <= i < l.end && key(s1) == #[trigger] dist(i);
                        assert(node.start <= i < node.end);
                    }
                }
            },
            _ => {
                let ps = positions(node.start, node.end);
                assert forall|s: S, j: int, t: S| 0 <= j < ps.len() && #[trigger] call_ensures(visit, (s, ps[j]), t) implies key(t) == closer(key(s), dist(ps[j])) by {
                    assert(node.start <= ps[j] < node.end);
                }
                lemma_visits_closest(visit, ps, s0, s1, key, dist);
                assert forall|i: usize| node.start <= i < node.end implies key(s1) <= #[trigger] dist(i) by {
                    assert(ps[i - node.start] == i);
                }
                if key(s1) != key(s0) {
                    let j = choose|j: int| 0 <= j < ps.len() && key(s1) == #[trigger] dist(ps[j]);
                    assert(node.start <= ps[j] < node.end);
                }
            },
        }
    }
}

/// For a tree that [`build_bvh`] built over `before`, leaving the primitives as
/// `after`: when visiting a position keeps the closer of the best distance and the
/// distance of the primitive now there, and `enter` refuses a box only when nothing
/// under it is closer, the pruned search ends with the closest of the starting
/// distance and the distances of all primitives of `before`.
pub proof fn built_tree_fold_finds_closest<P, B, S, FE: Fn(&B, &S) -> bool, FV: Fn(S, usize) -> S>(
    root: BvhNode<B>,
    before: Seq<P>,
    after: Seq<P>,
    enter: FE,
    visit: FV,
    s0: S,
    s1: S,
    key: spec_fn(S) -> int,
    dist: spec_fn(P) -> int,
)
    requires
        root.wf(),
        root.start == 0,
        root.end == before.len(),
        rearranged(before, after, 0, before.len() as int),
        folds(root, enter, visit, s0, s1),
        forall|s: S, i: usize, t: S| i < after.len() && #[trigger] call_ensures(visit, (s, i), t) ==> key(t) == closer(key(s), dist(after[i as int])),
        enter_covers(root, enter, key, |i: usize| dist(after[i as int])),
    ensures
        key(s1) <= key(s0),
        forall|j: int| 0 <= j < before.len() ==> key(s1) <= #[trigger] dist(before[j]),
        key(s1) == key(s0) || exists|j: int| 0 <= j < before.len() && key(s1) == #[trigger] dist(before[j]),
{
    assert(after.len() == before.len()) by {
        reveal(rearranged);
    }
    let at = |i: usize| dist(after[i as int]);
    fold_finds_closest(root, enter, visit, s0, s1, key, at);
    let to = rearranged_keeps_items(before, after, 0, before.len() as int);
    assert forall|j: int| 0 <= j < before.len() implies key(s1) <= #[trigger] dist(before[j]) by {
        let i = to[j];
        assert(0 <= i < before.len() && after[i] == before[j]);
        assert(key(s1) <= at(i as usize));
    }
    if key(s1) != key(s0) {
        let i = choose|i: usize| root.start <= i < root.end && key(s1) == #[trigger] at(i);
        let from = rearranged_adds_no_items(before, after, 0, before.len() as int);
        let j = from[i as int];
        assert(0 <= j < before.len() && after[i as int] == before[j]);
        assert(key(s1) == dist(before[j]));
    }
}


} // verus!
