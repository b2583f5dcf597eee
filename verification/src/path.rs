//! Paths as a list of verbs with the points they use, and the iteration over their segments.
//! A path is generic over its point type: it stores and hands back points, it never
//! computes with them.
use vstd::prelude::*;

verus! {

#[derive(Debug, Clone, Copy, PartialEq, Eq, Structural)]
pub enum PathVerb {
    MoveTo,
    LineTo,
    QuadTo,
    CubicTo,
    Close,
}

impl PathVerb {
    /// How many points a verb of this kind adds to a path.
    pub open spec fn spec_point_count(self) -> nat {
        match self {
            PathVerb::MoveTo => 1,
            PathVerb::LineTo => 1,
            PathVerb::QuadTo => 2,
            PathVerb::CubicTo => 3,
            PathVerb::Close => 0,
        }
    }

    pub fn point_count(self) -> (n: usize)
        ensures
            n == self.spec_point_count(),
    {
        match self {
            PathVerb::MoveTo => 1,
            PathVerb::LineTo => 1,
            PathVerb::QuadTo => 2,
            PathVerb::CubicTo => 3,
            PathVerb::Close => 0,
        }
    }
}

#[derive(Debug, Clone, Copy, PartialEq, Eq, Structural)]
pub enum FillRule {
    Winding,
    EvenOdd,
}

/// Number of points that the verbs use together.
pub open spec fn points_for(verbs: Seq<PathVerb>) -> nat
    decreases verbs.len(),
{
    if verbs.len() == 0 {
        0
    } else {
        points_for(verbs.drop_last()) + verbs.last().spec_point_count()
    }
}

/// Points used by the first `k + 1` verbs are those of the first `k` and then those of verb `k`.
pub proof fn lemma_points_for_step(verbs: Seq<PathVerb>, k: int)
    requires
        0 <= k < verbs.len(),
    ensures
        points_for(verbs.take(k + 1)) == points_for(verbs.take(k)) + verbs[k].spec_point_count(),
{
    assert(verbs.take(k + 1).drop_last() =~= verbs.take(k));
}

/// The first `k` verbs use no more points than all of them.
pub proof fn lemma_points_for_prefix(verbs: Seq<PathVerb>, k: int)
    requires
        0 <= k <= verbs.len(),
    ensures
        points_for(verbs.take(k)) <= points_for(verbs),
    decreases verbs.len() - k,
{
    if k == verbs.len() {
        assert(verbs.take(k) =~= verbs);
    } else {
        lemma_points_for_step(verbs, k);
        lemma_points_for_prefix(verbs, k + 1);
    }
}

/// Appending a verb adds its points.
pub proof fn lemma_points_for_push(verbs: Seq<PathVerb>, v: PathVerb)
    ensures
        points_for(verbs.push(v)) == points_for(verbs) + v.spec_point_count(),
{
    assert(verbs.push(v).drop_last() =~= verbs);
}

/// A path: verbs, and the points they use, in order.
#[derive(Debug, Clone)]
pub struct Path<P> {
    verbs: Vec<PathVerb>,
    points: Vec<P>,
}

/// One segment of a path: a verb and the points it uses.
#[derive(Debug, Clone, Copy)]
pub struct PathSegment<'a, P> {
    pub verb: PathVerb,
    pub points: &'a [P],
}

/// Walks the segments of a path in order.
#[derive(Debug, Clone)]
pub struct PathIter<'a, P> {
    verbs: &'a [PathVerb],
    points: &'a [P],
    verb_idx: usize,
    point_idx: usize,
}

impl<P: Copy> Path<P> {
    pub closed spec fn spec_verbs(&self) -> Seq<PathVerb> {
        self.verbs@
    }

    pub closed spec fn spec_points(&self) -> Seq<P> {
        self.points@
    }

    /// There are exactly as many points as the verbs use.
    pub open spec fn wf(&self) -> bool {
        self.spec_points().len() == points_for(self.spec_verbs())
    }

    pub fn new() -> (p: Self)
        ensures
            p.wf(),
            p.spec_verbs() == Seq::<PathVerb>::empty(),
            p.spec_points() == Seq::<P>::empty(),
    {
        Self { verbs: Vec::new(), points: Vec::new() }
    }

    pub fn with_capacity(verbs_cap: usize, points_cap: usize) -> (p: Self)
        ensures
            p.wf(),
            p.spec_verbs() == Seq::<PathVerb>::empty(),
            p.spec_points() == Seq::<P>::empty(),
    {
        Self { verbs: Vec::with_capacity(verbs_cap), points: Vec::with_capacity(points_cap) }
    }

    pub fn move_to(&mut self, p: P)
        requires
            old(self).wf(),
        ensures
            final(self).wf(),
            final(self).spec_verbs() == old(self).spec_verbs().push(PathVerb::MoveTo),
            final(self).spec_points() == old(self).spec_points().push(p),
    {
        proof {
            lemma_points_for_push(self.verbs@, PathVerb::MoveTo);
        }
        self.verbs.push(PathVerb::MoveTo);
        self.points.push(p);
    }

    pub fn line_to(&mut self, p: P)
        requires
            old(self).wf(),
        ensures
            final(self).wf(),
            final(self).spec_verbs() == old(self).spec_verbs().push(PathVerb::LineTo),
            final(self).spec_points() == old(self).spec_points().push(p),
    {
        proof {
            lemma_points_for_push(self.verbs@, PathVerb::LineTo);
        }
        self.verbs.push(PathVerb::LineTo);
        self.points.push(p);
    }

    pub fn quad_to(&mut self, ctrl: P, to: P)
        requires
            old(self).wf(),
        ensures
            final(self).wf(),
            final(self).spec_verbs() == old(self).spec_verbs().push(PathVerb::QuadTo),
            final(self).spec_points() == old(self).spec_points().push(ctrl).push(to),
    {
        proof {
            lemma_points_for_push(self.verbs@, PathVerb::QuadTo);
        }
        self.verbs.push(PathVerb::QuadTo);
        self.points.push(ctrl);
        self.points.push(to);
    }

    pub fn cubic_to(&mut self, ctrl1: P, ctrl2: P, to: P)
        requires
            old(self).wf(),
        ensures
            final(self).wf(),
            final(self).spec_verbs() == old(self).spec_verbs().push(PathVerb::CubicTo),
            final(self).spec_points() == old(self).spec_points().push(ctrl1).push(ctrl2).push(
                to,
            ),
    {
        proof {
            lemma_points_for_push(self.verbs@, PathVerb::CubicTo);
        }
        self.verbs.push(PathVerb::CubicTo);
        self.points.push(ctrl1);
        self.points.push(ctrl2);
        self.points.push(to);
    }

    pub fn close(&mut self)
        requires
            old(self).wf(),
        ensures
            final(self).wf(),
            final(self).spec_verbs() == old(self).spec_verbs().push(PathVerb::Close),
            final(self).spec_points() == old(self).spec_points(),
    {
        proof {
            lemma_points_for_push(self.verbs@, PathVerb::Close);
        }
        self.verbs.push(PathVerb::Close);
    }

    pub fn verbs(&self) -> (v: &[PathVerb])
        ensures
            v@ == self.spec_verbs(),
    {
        self.verbs.as_slice()
    }

    pub fn points(&self) -> (p: &[P])
        ensures
            p@ == self.spec_points(),
    {
        self.points.as_slice()
    }

    pub fn is_empty(&self) -> (b: bool)
        ensures
            b == (self.spec_verbs().len() == 0),
    {
        self.verbs.len() == 0
    }

    pub fn verb_count(&self) -> (n: usize)
        ensures
            n == self.spec_verbs().len(),
    {
        self.verbs.len()
    }

    pub fn point_count(&self) -> (n: usize)
        ensures
            n == self.spec_points().len(),
    {
        self.points.len()
    }

    /// The segments of the path, from the first verb on.
    pub fn iter(&self) -> (it: PathIter<'_, P>)
        requires
            self.wf(),
        ensures
            it.wf(),
            it.spec_verbs() == self.spec_verbs(),
            it.spec_points() == self.spec_points(),
            it.spec_verb_idx() == 0,
    {
        let it = PathIter {
            verbs: self.verbs.as_slice(),
            points: self.points.as_slice(),
            verb_idx: 0,
            point_idx: 0,
        };
        assert(self.verbs@.take(0) =~= Seq::<PathVerb>::empty());
        it
    }

    pub fn clear(&mut self)
        ensures
            final(self).wf(),
            final(self).spec_verbs() == Seq::<PathVerb>::empty(),
            final(self).spec_points() == Seq::<P>::empty(),
    {
        self.verbs.clear();
        self.points.clear();
    }
}

impl<P: Copy> Default for Path<P> {
    fn default() -> (p: Self)
        ensures
            p.wf(),
            p.spec_verbs() == Seq::<PathVerb>::empty(),
            p.spec_points() == Seq::<P>::empty(),
    {
        Self::new()
    }
}

impl<'a, P: Copy> PathIter<'a, P> {
    pub closed spec fn spec_verbs(&self) -> Seq<PathVerb> {
        self.verbs@
    }

    pub closed spec fn spec_points(&self) -> Seq<P> {
        self.points@
    }

    /// Number of segments already handed out.
    pub closed spec fn spec_verb_idx(&self) -> int {
        self.verb_idx as int
    }

    /// The walk is over a well-formed path and points at the first point of the next segment.
    pub closed spec fn wf(&self) -> bool {
        &&& self.verb_idx <= self.verbs@.len()
        &&& self.points@.len() == points_for(self.verbs@)
        &&& self.point_idx == points_for(self.verbs@.take(self.verb_idx as int))
    }

    /// The points of segment `k`: those used by verb `k`, right after the points of the
    /// verbs before it.
    pub open spec fn segment_points(&self, k: int) -> Seq<P> {
        self.spec_points().subrange(
            points_for(self.spec_verbs().take(k)) as int,
            (points_for(self.spec_verbs().take(k)) + self.spec_verbs()[k].spec_point_count()) as int,
        )
    }

    /// The next segment, or `None` once every verb has been handed out.
    pub fn next(&mut self) -> (seg: Option<PathSegment<'a, P>>)
        requires
            old(self).wf(),
        ensures
            final(self).wf(),
            final(self).spec_verbs() == old(self).spec_verbs(),
            final(self).spec_points() == old(self).spec_points(),
            old(self).spec_verb_idx() < old(self).spec_verbs().len() ==> {
                &&& final(self).spec_verb_idx() == old(self).spec_verb_idx() + 1
                &&& seg is Some
                &&& seg.unwrap().verb == old(self).spec_verbs()[old(self).spec_verb_idx()]
                &&& seg.unwrap().points@ == old(self).segment_points(old(self).spec_verb_idx())
                &&& (seg.unwrap().verb, seg.unwrap().points@) == path_segments(
                    old(self).spec_verbs(),
                    old(self).spec_points(),
                )[old(self).spec_verb_idx()]
            },
            old(self).spec_verb_idx() == old(self).spec_verbs().len() ==> {
                &&& final(self).spec_verb_idx() == old(self).spec_verb_idx()
                &&& seg is None
            },
    {
        if self.verb_idx >= self.verbs.len() {
            return None;
        }
        let verb = self.verbs[self.verb_idx];
        let n = verb.point_count();
        let total = self.points.len();
        proof {
            lemma_points_for_step(self.verbs@, self.verb_idx as int);
            lemma_points_for_prefix(self.verbs@, self.verb_idx + 1);
        }
        let seg = PathSegment {
            verb,
            points: vstd::slice::slice_subrange(self.points, self.point_idx, self.point_idx + n),
        };
        self.verb_idx = self.verb_idx + 1;
        self.point_idx = self.point_idx + n;
        Some(seg)
    }

    /// Exactly the number of segments left.
    pub fn size_hint(&self) -> (r: (usize, Option<usize>))
        requires
            self.wf(),
        ensures
            r.0 == self.spec_verbs().len() - self.spec_verb_idx(),
            r.1 == Some(r.0),
    {
        let remaining = self.verbs.len() - self.verb_idx;
        (remaining, Some(remaining))
    }
}

/// The points of the segments of the first `k` verbs, one after the other.
pub open spec fn segments_points<P>(verbs: Seq<PathVerb>, points: Seq<P>, k: nat) -> Seq<P>
    decreases k,
{
    if k == 0 {
        Seq::empty()
    } else {
        let start = points_for(verbs.take(k - 1)) as int;
        segments_points(verbs, points, (k - 1) as nat) + points.subrange(
            start,
            start + verbs[k - 1].spec_point_count(),
        )
    }
}

/// Walking a well-formed path segment by segment hands out every point exactly once, in
/// order: the segments' points, one after the other, are the path's points.
pub proof fn lemma_segments_cover_points<P>(verbs: Seq<PathVerb>, points: Seq<P>)
    requires
        points.len() == points_for(verbs),
    ensures
        segments_points(verbs, points, verbs.len()) == points,
{
    lemma_segments_prefix(verbs, points, verbs.len());
    assert(verbs.take(verbs.len() as int) =~= verbs);
    assert(points.take(points.len() as int) =~= points);
}

proof fn lemma_segments_prefix<P>(verbs: Seq<PathVerb>, points: Seq<P>, k: nat)
    requires
        points.len() == points_for(verbs),
        k <= verbs.len(),
    ensures
        segments_points(verbs, points, k) == points.take(points_for(verbs.take(k as int)) as int),
    decreases k,
{
    if k == 0 {
        assert(verbs.take(0) =~= Seq::<PathVerb>::empty());
        assert(points.take(0) =~= Seq::<P>::empty());
    } else {
        lemma_segments_prefix(verbs, points, (k - 1) as nat);
        lemma_points_for_step(verbs, k - 1);
        lemma_points_for_prefix(verbs, k as int);
        let start = points_for(verbs.take(k - 1)) as int;
        assert(points.take(start) + points.subrange(start, start + verbs[k - 1].spec_point_count())
            =~= points.take(points_for(verbs.take(k as int)) as int));
    }
}

/// The segments of a path with these verbs and points, in order: each verb with the points
/// it uses.
pub open spec fn path_segments<P>(verbs: Seq<PathVerb>, points: Seq<P>) -> Seq<(PathVerb, Seq<P>)> {
    Seq::new(
        verbs.len(),
        |i: int|
            (
                verbs[i],
                points.subrange(
                    points_for(verbs.take(i)) as int,
                    (points_for(verbs.take(i)) + verbs[i].spec_point_count()) as int,
                ),
            ),
    )
}

/// The point lists of the first `k` segments, joined in order.
proof fn lemma_joined_segments_prefix<P>(verbs: Seq<PathVerb>, points: Seq<P>, k: nat)
    requires
        k <= verbs.len(),
    ensures
        path_segments(verbs, points).map_values(|s: (PathVerb, Seq<P>)| s.1).take(
            k as int,
        ).flatten_alt() == segments_points(verbs, points, k),
    decreases k,
{
    let all = path_segments(verbs, points).map_values(|s: (PathVerb, Seq<P>)| s.1);
    if k > 0 {
        lemma_joined_segments_prefix(verbs, points, (k - 1) as nat);
        assert(all.take(k as int).drop_last() =~= all.take(k - 1));
    } else {
        assert(all.take(0) =~= Seq::<Seq<P>>::empty());
    }
}

/// Walking a well-formed path hands out exactly its segments: one for each verb, in order,
/// segment `i` with verb `i` and the points that verb uses, and the segments' points joined
/// in order are the path's points.
pub proof fn lemma_walk_yields_segments<P>(verbs: Seq<PathVerb>, points: Seq<P>)
    requires
        points.len() == points_for(verbs),
    ensures
        path_segments(verbs, points).len() == verbs.len(),
        forall|i: int|
            0 <= i < verbs.len() ==> {
                &&& (#[trigger] path_segments(verbs, points)[i]).0 == verbs[i]
                &&& path_segments(verbs, points)[i].1.len() == verbs[i].spec_point_count()
            },
        path_segments(verbs, points).map_values(|s: (PathVerb, Seq<P>)| s.1).flatten() == points,
{
    let all = path_segments(verbs, points).map_values(|s: (PathVerb, Seq<P>)| s.1);
    assert forall|i: int| 0 <= i < verbs.len() implies {
        &&& (#[trigger] path_segments(verbs, points)[i]).0 == verbs[i]
        &&& path_segments(verbs, points)[i].1.len() == verbs[i].spec_point_count()
    } by {
        lemma_points_for_step(verbs, i);
        lemma_points_for_prefix(verbs, i + 1);
    }
    lemma_joined_segments_prefix(verbs, points, verbs.len());
    assert(all.take(verbs.len() as int) =~= all);
    lemma_segments_cover_points(verbs, points);
    all.lemma_flatten_and_flatten_alt_are_equivalent();
}

/// Every verb adds at most three points, and only `Close` adds none.
pub proof fn lemma_point_count_bounds(v: PathVerb)
    ensures
        v.spec_point_count() <= 3,
        (v.spec_point_count() == 0) == (v == PathVerb::Close),
{
}

} // verus!
