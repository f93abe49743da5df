//! The spatial index: axis-aligned boxes in an R-tree, queried for the boxes
//! that meet a given one.
use crate::geometry::{overlap, Point, COORD_LIMIT};
use rstar::primitives::{GeomWithData, Rectangle};
use rstar::{RTree, AABB};
use vstd::prelude::*;

verus! {

/// An axis-aligned box, borders included.
#[derive(Clone, Copy, Debug, PartialEq, Eq, Structural)]
pub struct Aabb {
    pub min: Point,
    pub max: Point,
}

/// Two boxes meet when they share at least one point.
pub open spec fn meets(a: Aabb, b: Aabb) -> bool {
    a.min.x <= b.max.x && b.min.x <= a.max.x && a.min.y <= b.max.y && b.min.y <= a.max.y
}

/// The box with the same corners, ordered so that `min` lies below `max`.
pub open spec fn normal(a: Aabb) -> Aabb {
    Aabb {
        min: Point { x: if a.min.x <= a.max.x { a.min.x } else { a.max.x }, y: if a.min.y <= a.max.y { a.min.y } else { a.max.y } },
        max: Point { x: if a.min.x <= a.max.x { a.max.x } else { a.min.x }, y: if a.min.y <= a.max.y { a.max.y } else { a.min.y } },
    }
}

/// The box around a circle of radius `r` at `c`.
pub open spec fn envelope_spec(c: Point, r: int) -> Aabb {
    Aabb { min: Point { x: (c.x - r) as i64, y: (c.y - r) as i64 }, max: Point { x: (c.x + r) as i64, y: (c.y + r) as i64 } }
}

/// The box around a circle of radius `r` at `c`.
pub fn envelope(c: Point, r: i64) -> (e: Aabb)
    requires
        c.wf(),
        0 <= r <= COORD_LIMIT,
    ensures
        e == envelope_spec(c, r as int),
        normal(e) == e,
{
    Aabb { min: Point { x: c.x - r, y: c.y - r }, max: Point { x: c.x + r, y: c.y + r } }
}

/// Overlapping circles have boxes that meet.
pub proof fn lemma_overlap_meets(a: Point, ra: int, b: Point, rb: int)
    requires
        a.wf(),
        b.wf(),
        0 <= ra <= COORD_LIMIT,
        0 <= rb <= COORD_LIMIT,
        overlap(a, ra, b, rb),
    ensures
        meets(envelope_spec(a, ra), envelope_spec(b, rb)),
{
    let dx = a.x - b.x;
    let dy = a.y - b.y;
    let s = ra + rb;
    assert(dx * dx <= s * s && dy * dy <= s * s) by (nonlinear_arith)
        requires
            dx * dx + dy * dy <= s * s,
    ;
    assert(-s <= dx <= s) by (nonlinear_arith)
        requires
            dx * dx <= s * s,
            s >= 0,
    ;
    assert(-s <= dy <= s) by (nonlinear_arith)
        requires
            dy * dy <= s * s,
            s >= 0,
    ;
}

/// An R-tree over boxes, each tagged with its position in the list it was
/// built from.
#[verifier::external_body]
pub struct BoxIndex {
    tree: RTree<GeomWithData<Rectangle<[i64; 2]>, usize>>,
}

/// The boxes an index holds, in the order they were given.
pub uninterp spec fn indexed_boxes(ix: BoxIndex) -> Seq<Aabb>;

impl BoxIndex {
    /// Relies on rstar::RTree::bulk_load: the tree holds exactly the given
    /// boxes, each tagged with its position.
    #[verifier::external_body]
    pub(crate) fn bulk_load(boxes: &Vec<Aabb>) -> (r: BoxIndex)
        ensures
            indexed_boxes(r) == boxes@,
    {
        let items = boxes
            .iter()
            .enumerate()
            .map(|(i, b)| GeomWithData::new(Rectangle::from_corners([b.min.x, b.min.y], [b.max.x, b.max.y]), i))
            .collect();
        BoxIndex { tree: RTree::bulk_load(items) }
    }

    /// Relies on rstar::RTree::locate_in_envelope_intersecting: it yields each
    /// stored box whose envelope meets the query (touching counts), once.
    /// Both the stored boxes and the query are taken with ordered corners,
    /// as `from_corners` builds them.
    #[verifier::external_body]
    pub(crate) fn intersecting(&self, q: Aabb) -> (r: Vec<usize>)
        ensures
            r@.no_duplicates(),
            forall|i: usize| #[trigger] r@.contains(i) <==> (i < indexed_boxes(*self).len() && meets(normal(indexed_boxes(*self)[i as int]), normal(q))),
    {
        let query = AABB::from_corners([q.min.x, q.min.y], [q.max.x, q.max.y]);
        self.tree.locate_in_envelope_intersecting(&query).map(|g| g.data).collect()
    }
}

/// Number of indices below `n` that satisfy `f`.
pub open spec fn count_upto(n: int, f: spec_fn(int) -> bool) -> nat
    decreases n,
{
    if n <= 0 {
        0
    } else {
        count_upto(n - 1, f) + if f(n - 1) { 1nat } else { 0nat }
    }
}

/// Number of entries of `c` that satisfy `f`.
pub open spec fn count_in(c: Seq<usize>, f: spec_fn(int) -> bool) -> nat
    decreases c.len(),
{
    if c.len() == 0 {
        0
    } else {
        count_in(c.drop_last(), f) + if f(c.last() as int) { 1nat } else { 0nat }
    }
}

proof fn lemma_count_in_remove(c: Seq<usize>, k: int, f: spec_fn(int) -> bool)
    requires
        0 <= k < c.len(),
    ensures
        count_in(c, f) == count_in(c.remove(k), f) + if f(c[k] as int) { 1nat } else { 0nat },
    decreases c.len(),
{
    if k == c.len() - 1 {
        assert(c.remove(k) =~= c.drop_last());
    } else {
        lemma_count_in_remove(c.drop_last(), k, f);
        assert(c.remove(k).drop_last() =~= c.drop_last().remove(k));
        assert(c.remove(k).last() == c.last());
    }
}

/// Counting over a list of candidate indices, free of repeats and holding
/// every index that counts, gives the count over the whole range.
pub proof fn lemma_candidates_count(c: Seq<usize>, n: int, f: spec_fn(int) -> bool)
    requires
        c.no_duplicates(),
        forall|k: int| 0 <= k < c.len() ==> (#[trigger] c[k]) < n,
        forall|i: usize| 0 <= i < n && f(i as int) ==> #[trigger] c.contains(i),
        n <= usize::MAX + 1,
    ensures
        count_in(c, f) == count_upto(n, f),
    decreases n,
{
    if n <= 0 {
        if c.len() > 0 {
            assert(c[0] < n);
        }
        assert(c =~= Seq::<usize>::empty());
    } else {
        let top = (n - 1) as usize;
        if c.contains(top) {
            let k = c.index_of(top);
            let d = c.remove(k);
            lemma_count_in_remove(c, k, f);
            assert forall|j: int| 0 <= j < d.len() implies (#[trigger] d[j]) < n - 1 by {
                let src = if j < k { j } else { j + 1 };
                assert(d[j] == c[src]);
                assert(src != k);
            }
            assert forall|a: int, b: int| 0 <= a < d.len() && 0 <= b < d.len() && a != b implies d[a] != d[b] by {
                let sa = if a < k { a } else { a + 1 };
                let sb = if b < k { b } else { b + 1 };
                assert(d[a] == c[sa] && d[b] == c[sb]);
            }
            assert forall|i: usize| 0 <= i < n - 1 && f(i as int) implies #[trigger] d.contains(i) by {
                assert(c.contains(i));
                let j = c.index_of(i);
                assert(j != k);
                let dj = if j < k { j } else { j - 1 };
                assert(d[dj] == i);
            }
            lemma_candidates_count(d, n - 1, f);
        } else {
            assert forall|j: int| 0 <= j < c.len() implies (#[trigger] c[j]) < n - 1 by {
                assert(c[j] != top);
            }
            lemma_candidates_count(c, n - 1, f);
        }
    }
}

/// Counts the candidates of `c` that pass `test`, where `test` decides `f`
/// below `n`, and `c` holds, once each, every index below `n` that satisfies
/// `f` (and no index beyond): the count of `f` over the whole range.
pub fn count_candidates<F: Fn(usize) -> bool>(c: &Vec<usize>, n: usize, test: F, f: Ghost<spec_fn(int) -> bool>) -> (r: usize)
    requires
        c@.no_duplicates(),
        forall|i: usize| #[trigger] c@.contains(i) ==> i < n,
        forall|i: usize| 0 <= i < n && f@(i as int) ==> #[trigger] c@.contains(i),
        forall|i: usize| i < n ==> #[trigger] test.requires((i,)),
        forall|i: usize, b: bool| i < n && #[trigger] test.ensures((i,), b) ==> b == f@(i as int),
    ensures
        r == count_upto(n as int, f@),
{
    let mut k: usize = 0;
    let mut r: usize = 0;
    while k < c.len()
        invariant
            forall|i: usize| #[trigger] c@.contains(i) ==> i < n,
            forall|i: usize| i < n ==> #[trigger] test.requires((i,)),
            forall|i: usize, b: bool| i < n && #[trigger] test.ensures((i,), b) ==> b == f@(i as int),
            k <= c@.len(),
            r <= k,
            r == count_in(c@.subrange(0, k as int), f@),
        decreases c@.len() - k,
    {
        proof {
            let s = c@.subrange(0, k as int + 1);
            assert(s.drop_last() =~= c@.subrange(0, k as int));
            assert(c@.contains(c@[k as int]));
        }
        if test(c[k]) {
            r = r + 1;
        }
        k = k + 1;
    }
    proof {
        assert(c@.subrange(0, c@.len() as int) =~= c@);
        assert forall|j: int| 0 <= j < c@.len() implies (#[trigger] c@[j]) < n by {
            assert(c@.contains(c@[j]));
        }
        lemma_candidates_count(c@, n as int, f@);
    }
    r
}

/// The boxes `boxer(0)`, ..., `boxer(n - 1)`, where `boxer` computes `g`.
pub fn boxes_by<F: Fn(usize) -> Aabb>(n: usize, boxer: F, g: Ghost<spec_fn(int) -> Aabb>) -> (r: Vec<Aabb>)
    requires
        forall|i: usize| i < n ==> #[trigger] boxer.requires((i,)),
        forall|i: usize, e: Aabb| i < n && #[trigger] boxer.ensures((i,), e) ==> e == g@(i as int),
    ensures
        r@.len() == n,
        forall|i: int| 0 <= i < n ==> #[trigger] r@[i] == g@(i),
{
    let mut r: Vec<Aabb> = Vec::new();
    let mut j: usize = 0;
    while j < n
        invariant
            forall|i: usize| i < n ==> #[trigger] boxer.requires((i,)),
            forall|i: usize, e: Aabb| i < n && #[trigger] boxer.ensures((i,), e) ==> e == g@(i as int),
            j <= n,
            r@.len() == j,
            forall|i: int| 0 <= i < j ==> #[trigger] r@[i] == g@(i),
        decreases n - j,
    {
        r.push(boxer(j));
        j = j + 1;
    }
    r
}

} // verus!
