//! Paths flattened to line segments. Generic over the point type: the points are stored,
//! never computed with.
use vstd::prelude::*;
use crate::path::{lemma_points_for_prefix, lemma_points_for_step, points_for, Path, PathVerb};

verus! {

#[derive(Debug, Clone, Copy, PartialEq, Eq, Structural)]
pub enum FlattenVerb {
    MoveTo,
    LineTo,
    Close,
}

impl FlattenVerb {
    /// `MoveTo` and `LineTo` use one point, `Close` none.
    pub open spec fn spec_point_count(self) -> nat {
        match self {
            FlattenVerb::MoveTo => 1,
            FlattenVerb::LineTo => 1,
            FlattenVerb::Close => 0,
        }
    }
}

/// Number of points that the flattened verbs use together.
pub open spec fn flat_points_for(verbs: Seq<FlattenVerb>) -> nat
    decreases verbs.len(),
{
    if verbs.len() == 0 {
        0
    } else {
        flat_points_for(verbs.drop_last()) + verbs.last().spec_point_count()
    }
}

/// Points used by the first `k + 1` verbs are those of the first `k` and then those of verb `k`.
pub proof fn lemma_flat_points_for_step(verbs: Seq<FlattenVerb>, k: int)
    requires
        0 <= k < verbs.len(),
    ensures
        flat_points_for(verbs.take(k + 1)) == flat_points_for(verbs.take(k))
            + verbs[k].spec_point_count(),
{
    assert(verbs.take(k + 1).drop_last() =~= verbs.take(k));
}

/// The first `k` verbs use no more points than all of them.
pub proof fn lemma_flat_points_for_prefix(verbs: Seq<FlattenVerb>, k: int)
    requires
        0 <= k <= verbs.len(),
    ensures
        flat_points_for(verbs.take(k)) <= flat_points_for(verbs),
    decreases verbs.len() - k,
{
    if k == verbs.len() {
        assert(verbs.take(k) =~= verbs);
    } else {
        lemma_flat_points_for_step(verbs, k);
        lemma_flat_points_for_prefix(verbs, k + 1);
    }
}

/// Appending a verb adds its points.
pub proof fn lemma_flat_points_for_push(verbs: Seq<FlattenVerb>, v: FlattenVerb)
    ensures
        flat_points_for(verbs.push(v)) == flat_points_for(verbs) + v.spec_point_count(),
{
    assert(verbs.push(v).drop_last() =~= verbs);
}

/// A path made of line segments only.
#[derive(Debug, Clone)]
pub struct FlattenedPath<P> {
    pub points: Vec<P>,
    pub verbs: Vec<FlattenVerb>,
}

impl<P> FlattenedPath<P> {
    pub fn new() -> (p: Self)
        ensures
            p.points@ == Seq::<P>::empty(),
            p.verbs@ == Seq::<FlattenVerb>::empty(),
    {
        Self { points: Vec::new(), verbs: Vec::new() }
    }

    pub fn with_capacity(n: usize) -> (p: Self)
        ensures
            p.points@ == Seq::<P>::empty(),
            p.verbs@ == Seq::<FlattenVerb>::empty(),
    {
        Self { points: Vec::with_capacity(n), verbs: Vec::with_capacity(n) }
    }

    pub fn is_empty(&self) -> (b: bool)
        ensures
            b == (self.verbs@.len() == 0),
    {
        self.verbs.len() == 0
    }

    pub fn clear(&mut self)
        ensures
            final(self).points@ == Seq::<P>::empty(),
            final(self).verbs@ == Seq::<FlattenVerb>::empty(),
    {
        self.points.clear();
        self.verbs.clear();
    }
}

impl<P> Default for FlattenedPath<P> {
    fn default() -> (p: Self)
        ensures
            p.points@ == Seq::<P>::empty(),
            p.verbs@ == Seq::<FlattenVerb>::empty(),
    {
        Self::new()
    }
}


/// The pen between two segments while a path is flattened: where it is, where the current
/// subpath started, and whether a move was seen that has not been written out yet.
pub struct Pen<P> {
    pub current: P,
    pub start: P,
    pub pending_move: bool,
}

/// The points of segment `k` of a path with these verbs and points.
pub open spec fn segment_pts<P>(verbs: Seq<PathVerb>, points: Seq<P>, k: int) -> Seq<P> {
    points.subrange(
        points_for(verbs.take(k)) as int,
        (points_for(verbs.take(k)) + verbs[k].spec_point_count()) as int,
    )
}

/// The pen after the first `k` segments, when it starts at `origin`.
pub open spec fn pen_after<P>(verbs: Seq<PathVerb>, points: Seq<P>, origin: P, k: nat) -> Pen<P>
    decreases k,
{
    if k == 0 {
        Pen { current: origin, start: origin, pending_move: false }
    } else {
        let pen = pen_after(verbs, points, origin, (k - 1) as nat);
        let s = segment_pts(verbs, points, k - 1);
        match verbs[k - 1] {
            PathVerb::MoveTo => Pen { current: s[0], start: s[0], pending_move: true },
            PathVerb::LineTo => Pen { current: s[0], start: pen.start, pending_move: false },
            PathVerb::QuadTo => Pen { current: s[1], start: pen.start, pending_move: false },
            PathVerb::CubicTo => Pen { current: s[2], start: pen.start, pending_move: false },
            PathVerb::Close => Pen { current: pen.start, start: pen.start, pending_move: false },
        }
    }
}

/// The move that a pending pen writes out before it draws; nothing when no move is pending.
pub open spec fn pending_lead<P>(pen: Pen<P>) -> (Seq<P>, Seq<FlattenVerb>) {
    if pen.pending_move {
        (seq![pen.start], seq![FlattenVerb::MoveTo])
    } else {
        (Seq::empty(), Seq::empty())
    }
}

/// `n` line verbs.
pub open spec fn line_verbs(n: nat) -> Seq<FlattenVerb> {
    Seq::new(n, |i: int| FlattenVerb::LineTo)
}

/// What one segment adds to the flattened path, from the pen before it: `s` are the
/// segment's points, `curve` the end points of the lines that stand for it when it is a
/// curve, and `at_start` whether the pen is already back at the subpath's start when it
/// closes.
pub open spec fn flatten_step<P>(
    pen: Pen<P>,
    verb: PathVerb,
    s: Seq<P>,
    curve: Seq<P>,
    at_start: bool,
) -> (Seq<P>, Seq<FlattenVerb>) {
    let lead = pending_lead(pen);
    match verb {
        PathVerb::MoveTo => lead,
        PathVerb::LineTo => (lead.0.push(s[0]), lead.1.push(FlattenVerb::LineTo)),
        PathVerb::QuadTo => (lead.0 + curve, lead.1 + line_verbs(curve.len())),
        PathVerb::CubicTo => (lead.0 + curve, lead.1 + line_verbs(curve.len())),
        PathVerb::Close => if pen.pending_move {
            (Seq::empty(), Seq::empty())
        } else if at_start {
            (Seq::empty(), seq![FlattenVerb::Close])
        } else {
            (seq![pen.start], seq![FlattenVerb::LineTo, FlattenVerb::Close])
        },
    }
}

/// The flattened path after the first `k` segments, given what the curve flatteners
/// returned for each segment (`curves`) and what the point comparison answered
/// (`at_start`).
pub open spec fn flatten_output<P>(
    verbs: Seq<PathVerb>,
    points: Seq<P>,
    origin: P,
    curves: Seq<Vec<P>>,
    at_start: Seq<bool>,
    k: nat,
) -> (Seq<P>, Seq<FlattenVerb>)
    decreases k,
{
    if k == 0 {
        (Seq::empty(), Seq::empty())
    } else {
        let prev = flatten_output(verbs, points, origin, curves, at_start, (k - 1) as nat);
        let step = flatten_step(
            pen_after(verbs, points, origin, (k - 1) as nat),
            verbs[k - 1],
            segment_pts(verbs, points, k - 1),
            curves[k - 1]@,
            at_start[k - 1],
        );
        (prev.0 + step.0, prev.1 + step.1)
    }
}

/// The answers recorded for segment `k` are answers that the caller's functions give on the
/// arguments that flattening hands them: the pen's point and the segment's points for a
/// curve, the pen's point and the subpath's start for a close.
pub open spec fn flatten_answer<P, F, G, E>(
    verbs: Seq<PathVerb>,
    points: Seq<P>,
    origin: P,
    flatten_quad: F,
    flatten_cubic: G,
    same_point: E,
    k: int,
    curve: Vec<P>,
    at_start: bool,
) -> bool where F: Fn(P, P, P) -> Vec<P>, G: Fn(P, P, P, P) -> Vec<P>, E: Fn(P, P) -> bool {
    let pen = pen_after(verbs, points, origin, k as nat);
    let s = segment_pts(verbs, points, k);
    &&& verbs[k] == PathVerb::QuadTo ==> call_ensures(flatten_quad, (pen.current, s[0], s[1]), curve)
    &&& verbs[k] == PathVerb::CubicTo ==> call_ensures(
        flatten_cubic,
        (pen.current, s[0], s[1], s[2]),
        curve,
    )
    &&& (verbs[k] == PathVerb::Close && !pen.pending_move) ==> call_ensures(
        same_point,
        (pen.current, pen.start),
        at_start,
    )
}

/// For each of the first `n` segments, `curves` and `at_start` hold answers that the
/// caller's functions give (see `flatten_answer`).
pub open spec fn flatten_answers<P, F, G, E>(
    verbs: Seq<PathVerb>,
    points: Seq<P>,
    origin: P,
    flatten_quad: F,
    flatten_cubic: G,
    same_point: E,
    curves: Seq<Vec<P>>,
    at_start: Seq<bool>,
    n: nat,
) -> bool where F: Fn(P, P, P) -> Vec<P>, G: Fn(P, P, P, P) -> Vec<P>, E: Fn(P, P) -> bool {
    &&& curves.len() == n
    &&& at_start.len() == n
    &&& forall|k: int|
        0 <= k < n ==> #[trigger] flatten_answer(
            verbs,
            points,
            origin,
            flatten_quad,
            flatten_cubic,
            same_point,
            k,
            curves[k],
            at_start[k],
        )
}

proof fn lemma_flatten_answers_push<P, F, G, E>(
    verbs: Seq<PathVerb>,
    points: Seq<P>,
    origin: P,
    flatten_quad: F,
    flatten_cubic: G,
    same_point: E,
    curves: Seq<Vec<P>>,
    at_start: Seq<bool>,
    n: nat,
    curve: Vec<P>,
    same: bool,
) where F: Fn(P, P, P) -> Vec<P>, G: Fn(P, P, P, P) -> Vec<P>, E: Fn(P, P) -> bool
    requires
        flatten_answers(
            verbs,
            points,
            origin,
            flatten_quad,
            flatten_cubic,
            same_point,
            curves,
            at_start,
            n,
        ),
        flatten_answer(
            verbs,
            points,
            origin,
            flatten_quad,
            flatten_cubic,
            same_point,
            n as int,
            curve,
            same,
        ),
    ensures
        flatten_answers(
            verbs,
            points,
            origin,
            flatten_quad,
            flatten_cubic,
            same_point,
            curves.push(curve),
            at_start.push(same),
            n + 1,
        ),
{
    let c2 = curves.push(curve);
    let a2 = at_start.push(same);
    assert forall|k: int| 0 <= k < n + 1 implies #[trigger] flatten_answer(
        verbs,
        points,
        origin,
        flatten_quad,
        flatten_cubic,
        same_point,
        k,
        c2[k],
        a2[k],
    ) by {
        if k < n {
            assert(c2[k] == curves[k]);
            assert(a2[k] == at_start[k]);
            assert(flatten_answer(
                verbs,
                points,
                origin,
                flatten_quad,
                flatten_cubic,
                same_point,
                k,
                curves[k],
                at_start[k],
            ));
        }
    }
}

/// The output after `k` segments reads only the first `k` answers.
proof fn lemma_flatten_output_prefix<P>(
    verbs: Seq<PathVerb>,
    points: Seq<P>,
    origin: P,
    c1: Seq<Vec<P>>,
    a1: Seq<bool>,
    c2: Seq<Vec<P>>,
    a2: Seq<bool>,
    k: nat,
)
    requires
        k <= c1.len(),
        k <= c2.len(),
        k <= a1.len(),
        k <= a2.len(),
        forall|j: int| 0 <= j < k ==> #[trigger] c1[j] == c2[j] && a1[j] == a2[j],
    ensures
        flatten_output(verbs, points, origin, c1, a1, k) == flatten_output(
            verbs,
            points,
            origin,
            c2,
            a2,
            k,
        ),
    decreases k,
{
    if k > 0 {
        lemma_flatten_output_prefix(verbs, points, origin, c1, a1, c2, a2, (k - 1) as nat);
    }
}

/// Appends a line to each of `pts`, in order.
fn push_lines<P: Copy>(out: &mut FlattenedPath<P>, pts: &Vec<P>)
    ensures
        final(out).points@ == old(out).points@ + pts@,
        final(out).verbs@ == old(out).verbs@ + line_verbs(pts@.len()),
        flat_points_for(final(out).verbs@) == flat_points_for(old(out).verbs@) + pts@.len(),
{
    let ghost p0 = out.points@;
    let ghost v0 = out.verbs@;
    let mut i: usize = 0;
    while i < pts.len()
        invariant
            i <= pts@.len(),
            out.points@ == p0 + pts@.take(i as int),
            out.verbs@ == v0 + line_verbs(i as nat),
            flat_points_for(out.verbs@) == flat_points_for(v0) + i,
        decreases pts@.len() - i,
    {
        proof {
            lemma_flat_points_for_push(out.verbs@, FlattenVerb::LineTo);
        }
        out.points.push(pts[i]);
        out.verbs.push(FlattenVerb::LineTo);
        assert(pts@.take(i + 1) =~= pts@.take(i as int).push(pts@[i as int]));
        assert(line_verbs((i + 1) as nat) =~= line_verbs(i as nat).push(FlattenVerb::LineTo));
        i = i + 1;
    }
    assert(pts@.take(i as int) =~= pts@);
}

/// Flattens a path to line segments. Lines and moves are copied; a move is written out only
/// once something is drawn from it or another move follows it, and a close right after a
/// move drops it; each curve is replaced by
/// lines to the points that `flatten_quad` or `flatten_cubic` return for it, given the pen's
/// point and the curve's points; a close draws a line back to the subpath's start unless
/// `same_point` says the pen is already there. The pen starts at `origin`.
pub fn flatten_path<P: Copy, F, G, E>(
    path: &Path<P>,
    origin: P,
    flatten_quad: F,
    flatten_cubic: G,
    same_point: E,
) -> (flat: FlattenedPath<P>) where
    F: Fn(P, P, P) -> Vec<P>,
    G: Fn(P, P, P, P) -> Vec<P>,
    E: Fn(P, P) -> bool,

    requires
        path.wf(),
        forall|a: P, b: P, c: P| call_requires(flatten_quad, (a, b, c)),
        forall|a: P, b: P, c: P, d: P| call_requires(flatten_cubic, (a, b, c, d)),
        forall|a: P, b: P| call_requires(same_point, (a, b)),
    ensures
        flat_points_for(flat.verbs@) == flat.points@.len(),
        exists|curves: Seq<Vec<P>>, at_start: Seq<bool>|
            {
                &&& #[trigger] flatten_answers(
                    path.spec_verbs(),
                    path.spec_points(),
                    origin,
                    flatten_quad,
                    flatten_cubic,
                    same_point,
                    curves,
                    at_start,
                    path.spec_verbs().len(),
                )
                &&& flat.points@ == flatten_output(
                    path.spec_verbs(),
                    path.spec_points(),
                    origin,
                    curves,
                    at_start,
                    path.spec_verbs().len(),
                ).0
                &&& flat.verbs@ == flatten_output(
                    path.spec_verbs(),
                    path.spec_points(),
                    origin,
                    curves,
                    at_start,
                    path.spec_verbs().len(),
                ).1
            },
{
    let verbs = path.verbs();
    let pts = path.points();
    let ghost gv = path.spec_verbs();
    let ghost gp = path.spec_points();
    let mut result: FlattenedPath<P> = FlattenedPath::new();
    let mut current = origin;
    let mut start = origin;
    let mut pending = false;
    let ghost mut curves: Seq<Vec<P>> = Seq::empty();
    let ghost mut at_start: Seq<bool> = Seq::empty();
    let mut vi: usize = 0;
    let mut pi: usize = 0;
    while vi < verbs.len()
        invariant
            verbs@ == gv,
            pts@ == gp,
            gp.len() == points_for(gv),
            vi <= gv.len(),
            pi == points_for(gv.take(vi as int)),
            pen_after(gv, gp, origin, vi as nat) == (Pen {
                current,
                start,
                pending_move: pending,
            }),
            flatten_answers(
                gv,
                gp,
                origin,
                flatten_quad,
                flatten_cubic,
                same_point,
                curves,
                at_start,
                vi as nat,
            ),
            result.points@ == flatten_output(gv, gp, origin, curves, at_start, vi as nat).0,
            result.verbs@ == flatten_output(gv, gp, origin, curves, at_start, vi as nat).1,
            flat_points_for(result.verbs@) == result.points@.len(),
            forall|a: P, b: P, c: P| call_requires(flatten_quad, (a, b, c)),
            forall|a: P, b: P, c: P, d: P| call_requires(flatten_cubic, (a, b, c, d)),
            forall|a: P, b: P| call_requires(same_point, (a, b)),
        decreases gv.len() - vi,
    {
        proof {
            lemma_points_for_step(gv, vi as int);
            lemma_points_for_prefix(gv, vi + 1);
        }
        let verb = verbs[vi];
        let ghost pen0 = Pen { current, start, pending_move: pending };
        let ghost s = segment_pts(gv, gp, vi as int);
        let ghost p0 = result.points@;
        let ghost v0 = result.verbs@;
        let ghost mut curve: Vec<P> = vstd::pervasive::arbitrary();
        let ghost mut same: bool = vstd::pervasive::arbitrary();
        assert(forall|j: int| 0 <= j < verb.spec_point_count() ==> s[j] == gp[pi + j]);
        if pending && verb != PathVerb::MoveTo && verb != PathVerb::Close {
            proof {
                lemma_flat_points_for_push(result.verbs@, FlattenVerb::MoveTo);
            }
            result.points.push(start);
            result.verbs.push(FlattenVerb::MoveTo);
            pending = false;
        }
        let ghost p1 = result.points@;
        let ghost v1 = result.verbs@;
        match verb {
            PathVerb::MoveTo => {
                if pending {
                    proof {
                        lemma_flat_points_for_push(result.verbs@, FlattenVerb::MoveTo);
                    }
                    result.points.push(start);
                    result.verbs.push(FlattenVerb::MoveTo);
                }
                start = pts[pi];
                current = start;
                pending = true;
                pi = pi + 1;
            },
            PathVerb::LineTo => {
                proof {
                    lemma_flat_points_for_push(result.verbs@, FlattenVerb::LineTo);
                }
                result.points.push(pts[pi]);
                result.verbs.push(FlattenVerb::LineTo);
                current = pts[pi];
                pi = pi + 1;
            },
            PathVerb::QuadTo => {
                let out = flatten_quad(current, pts[pi], pts[pi + 1]);
                push_lines(&mut result, &out);
                proof {
                    curve = out;
                }
                current = pts[pi + 1];
                pi = pi + 2;
            },
            PathVerb::CubicTo => {
                let out = flatten_cubic(current, pts[pi], pts[pi + 1], pts[pi + 2]);
                push_lines(&mut result, &out);
                proof {
                    curve = out;
                }
                current = pts[pi + 2];
                pi = pi + 3;
            },
            PathVerb::Close => {
                if !pending {
                    let back = same_point(current, start);
                    proof {
                        same = back;
                    }
                    if !back {
                        proof {
                            lemma_flat_points_for_push(result.verbs@, FlattenVerb::LineTo);
                        }
                        result.points.push(start);
                        result.verbs.push(FlattenVerb::LineTo);
                    }
                    proof {
                        lemma_flat_points_for_push(result.verbs@, FlattenVerb::Close);
                    }
                    result.verbs.push(FlattenVerb::Close);
                }
                current = start;
                pending = false;
            },
        }
        proof {
            let c2 = curves.push(curve);
            let a2 = at_start.push(same);
            lemma_flatten_answers_push(
                gv,
                gp,
                origin,
                flatten_quad,
                flatten_cubic,
                same_point,
                curves,
                at_start,
                vi as nat,
                curve,
                same,
            );
            lemma_flatten_output_prefix(gv, gp, origin, curves, at_start, c2, a2, vi as nat);
            let step = flatten_step(pen0, verb, s, curve@, same);
            assert(result.points@ =~= p0 + step.0);
            assert(result.verbs@ =~= v0 + step.1);
            curves = c2;
            at_start = a2;
        }
        vi = vi + 1;
    }
    assert(gv.take(vi as int) =~= gv);
    result
}

/// Where the pen stands after each segment: a move, line or curve leaves it on the
/// segment's last point (its end point), and a close brings it back to the subpath's start.
/// A move starts a new subpath at its point and is pending until something is drawn;
/// every other segment keeps the subpath's start and leaves no move pending.
pub proof fn lemma_pen_stands_at_segment_end<P>(
    verbs: Seq<PathVerb>,
    points: Seq<P>,
    origin: P,
    k: nat,
)
    requires
        k < verbs.len(),
        points_for(verbs) <= points.len(),
    ensures
        ({
            let before = pen_after(verbs, points, origin, k);
            let after = pen_after(verbs, points, origin, k + 1);
            let s = segment_pts(verbs, points, k as int);
            &&& s.len() == verbs[k as int].spec_point_count()
            &&& verbs[k as int] != PathVerb::Close ==> s.len() > 0 && after.current == s.last()
            &&& verbs[k as int] == PathVerb::Close ==> after.current == before.start
            &&& verbs[k as int] == PathVerb::MoveTo ==> after.start == s.last()
                && after.pending_move
            &&& verbs[k as int] != PathVerb::MoveTo ==> after.start == before.start
                && !after.pending_move
        }),
{
    lemma_points_for_step(verbs, k as int);
    lemma_points_for_prefix(verbs, (k + 1) as int);
}

/// A curve is flattened from where the segment before it ended: when segment `k - 1` is a
/// move, line or curve, the flattener of a curve at `k` is handed that segment's last point
/// as the curve's start, and a close at `k` compares that point with the subpath's start.
pub proof fn lemma_curve_starts_at_previous_end<P, F, G, E>(
    verbs: Seq<PathVerb>,
    points: Seq<P>,
    origin: P,
    flatten_quad: F,
    flatten_cubic: G,
    same_point: E,
    k: nat,
    curve: Vec<P>,
    at_start: bool,
) where F: Fn(P, P, P) -> Vec<P>, G: Fn(P, P, P, P) -> Vec<P>, E: Fn(P, P) -> bool
    requires
        0 < k < verbs.len(),
        points_for(verbs) <= points.len(),
        verbs[k - 1] != PathVerb::Close,
        flatten_answer(
            verbs,
            points,
            origin,
            flatten_quad,
            flatten_cubic,
            same_point,
            k as int,
            curve,
            at_start,
        ),
    ensures
        ({
            let prev_end = segment_pts(verbs, points, k - 1).last();
            let s = segment_pts(verbs, points, k as int);
            &&& verbs[k as int] == PathVerb::QuadTo ==> call_ensures(
                flatten_quad,
                (prev_end, s[0], s[1]),
                curve,
            )
            &&& verbs[k as int] == PathVerb::CubicTo ==> call_ensures(
                flatten_cubic,
                (prev_end, s[0], s[1], s[2]),
                curve,
            )
            &&& (verbs[k as int] == PathVerb::Close && verbs[k - 1] != PathVerb::MoveTo)
                ==> call_ensures(
                same_point,
                (prev_end, pen_after(verbs, points, origin, k).start),
                at_start,
            )
        }),
{
    lemma_pen_stands_at_segment_end(verbs, points, origin, (k - 1) as nat);
}

/// The flattened verbs of a path of moves and lines: a move for each move, a line for each
/// line.
pub open spec fn move_line_verbs(verbs: Seq<PathVerb>, n: nat) -> Seq<FlattenVerb> {
    Seq::new(
        n,
        |i: int|
            if verbs[i] == PathVerb::MoveTo {
                FlattenVerb::MoveTo
            } else {
                FlattenVerb::LineTo
            },
    )
}

/// Only moves and lines.
pub open spec fn moves_and_lines(verbs: Seq<PathVerb>) -> bool {
    forall|i: int|
        0 <= i < verbs.len() ==> #[trigger] verbs[i] == PathVerb::MoveTo || verbs[i]
            == PathVerb::LineTo
}

/// Each move or line uses one point.
proof fn lemma_moves_lines_points(verbs: Seq<PathVerb>, k: nat)
    requires
        k <= verbs.len(),
        moves_and_lines(verbs),
    ensures
        points_for(verbs.take(k as int)) == k,
    decreases k,
{
    if k == 0 {
        assert(verbs.take(0) =~= Seq::<PathVerb>::empty());
    } else {
        lemma_moves_lines_points(verbs, (k - 1) as nat);
        lemma_points_for_step(verbs, k - 1);
        assert(verbs[k - 1] == PathVerb::MoveTo || verbs[k - 1] == PathVerb::LineTo);
    }
}

/// Flattening the first `k` segments of a path of moves and lines copies them, except that a
/// move at the end is still pending: the pen then holds it as the subpath's start.
proof fn lemma_flatten_moves_lines_prefix<P>(
    verbs: Seq<PathVerb>,
    points: Seq<P>,
    origin: P,
    curves: Seq<Vec<P>>,
    at_start: Seq<bool>,
    k: nat,
)
    requires
        k <= verbs.len(),
        verbs.len() <= points.len(),
        moves_and_lines(verbs),
    ensures
        points_for(verbs.take(k as int)) == k,
        ({
            let out = flatten_output(verbs, points, origin, curves, at_start, k);
            let pen = pen_after(verbs, points, origin, k);
            if k > 0 && verbs[k - 1] == PathVerb::MoveTo {
                &&& out == (points.take(k - 1), move_line_verbs(verbs, (k - 1) as nat))
                &&& pen.pending_move
                &&& pen.start == points[k - 1]
            } else {
                &&& out == (points.take(k as int), move_line_verbs(verbs, k))
                &&& !pen.pending_move
            }
        }),
    decreases k,
{
    if k == 0 {
        assert(verbs.take(0) =~= Seq::<PathVerb>::empty());
        assert(points.take(0) =~= Seq::<P>::empty());
        assert(move_line_verbs(verbs, 0) =~= Seq::<FlattenVerb>::empty());
    } else {
        let k1 = (k - 1) as nat;
        lemma_flatten_moves_lines_prefix(verbs, points, origin, curves, at_start, k1);
        lemma_points_for_step(verbs, k1 as int);
        assert(verbs[k1 as int] == PathVerb::MoveTo || verbs[k1 as int] == PathVerb::LineTo);
        let s = segment_pts(verbs, points, k1 as int);
        assert(s[0] == points[k1 as int]);
        let prev_pen = pen_after(verbs, points, origin, k1);
        let out = flatten_output(verbs, points, origin, curves, at_start, k);
        if verbs[k1 as int] == PathVerb::MoveTo {
            if k1 > 0 && verbs[k1 - 1] == PathVerb::MoveTo {
                assert(points.take(k1 - 1).push(points[k1 - 1]) =~= points.take(k1 as int));
                assert(move_line_verbs(verbs, (k1 - 1) as nat).push(FlattenVerb::MoveTo)
                    =~= move_line_verbs(verbs, k1));
            }
            assert(out.0 =~= points.take(k1 as int));
            assert(out.1 =~= move_line_verbs(verbs, k1));
        } else {
            if k1 > 0 && verbs[k1 - 1] == PathVerb::MoveTo {
                assert(points.take(k1 - 1) + seq![points[k1 - 1]].push(s[0]) =~= points.take(
                    k as int,
                ));
                assert(move_line_verbs(verbs, (k1 - 1) as nat) + seq![FlattenVerb::MoveTo].push(
                    FlattenVerb::LineTo,
                ) =~= move_line_verbs(verbs, k));
                assert(out.0 =~= points.take(k1 - 1) + seq![points[k1 - 1]].push(s[0]));
                assert(out.1 =~= move_line_verbs(verbs, (k1 - 1) as nat) + seq![
                    FlattenVerb::MoveTo,
                ].push(FlattenVerb::LineTo));
            } else {
                assert(points.take(k1 as int).push(s[0]) =~= points.take(k as int));
                assert(move_line_verbs(verbs, k1).push(FlattenVerb::LineTo) =~= move_line_verbs(
                    verbs,
                    k,
                ));
                assert(out.0 =~= points.take(k1 as int).push(s[0]));
                assert(out.1 =~= move_line_verbs(verbs, k1).push(FlattenVerb::LineTo));
            }
        }
    }
}

/// A path of moves and lines that does not end on a move flattens to itself: the same
/// points, a move for each move and a line for each line, whatever the pen's origin.
pub proof fn lemma_flatten_moves_lines_unchanged<P>(
    verbs: Seq<PathVerb>,
    points: Seq<P>,
    origin: P,
    curves: Seq<Vec<P>>,
    at_start: Seq<bool>,
)
    requires
        moves_and_lines(verbs),
        verbs.len() > 0 ==> verbs.last() == PathVerb::LineTo,
        points_for(verbs) <= points.len(),
    ensures
        flatten_output(verbs, points, origin, curves, at_start, verbs.len()) == (points.take(
            points_for(verbs) as int,
        ), move_line_verbs(verbs, verbs.len())),
{
    assert(verbs.take(verbs.len() as int) =~= verbs);
    lemma_moves_lines_points(verbs, verbs.len());
    lemma_flatten_moves_lines_prefix(verbs, points, origin, curves, at_start, verbs.len());
}

} // verus!
