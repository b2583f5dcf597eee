//! Stroke styles, and the structural part of stroking: splitting a flattened path into
//! subpaths, emitting closed polygons, and turning a flattened path back into a path.
use vstd::prelude::*;
use crate::flatten::{flat_points_for, lemma_flat_points_for_prefix, lemma_flat_points_for_step,
    FlattenVerb, FlattenedPath};
use crate::path::{Path, PathVerb};

verus! {

/// Line cap style.
#[derive(Debug, Clone, Copy, PartialEq, Eq, Structural)]
pub enum LineCap {
    Butt,
    Round,
    Square,
}

/// Line join style.
#[derive(Debug, Clone, Copy, PartialEq, Eq, Structural)]
pub enum LineJoin {
    Miter,
    Round,
    Bevel,
}

/// The path verb that a flattened verb stands for.
pub open spec fn path_verb_of(v: FlattenVerb) -> PathVerb {
    match v {
        FlattenVerb::MoveTo => PathVerb::MoveTo,
        FlattenVerb::LineTo => PathVerb::LineTo,
        FlattenVerb::Close => PathVerb::Close,
    }
}

/// Convert a FlattenedPath (line segments only) back into a Path: the same verbs, and the
/// points that they use.
pub fn flattened_to_path<P: Copy>(flat: &FlattenedPath<P>) -> (path: Path<P>)
    requires
        flat_points_for(flat.verbs@) <= flat.points@.len(),
    ensures
        path.wf(),
        path.spec_verbs() == flat.verbs@.map_values(|v: FlattenVerb| path_verb_of(v)),
        path.spec_points() == flat.points@.take(flat_points_for(flat.verbs@) as int),
{
    let mut path = Path::new();
    let np = flat.points.len();
    let mut vi: usize = 0;
    let mut pi: usize = 0;
    while vi < flat.verbs.len()
        invariant
            vi <= flat.verbs@.len(),
            np == flat.points@.len(),
            flat_points_for(flat.verbs@) <= flat.points@.len(),
            pi == flat_points_for(flat.verbs@.take(vi as int)),
            path.wf(),
            path.spec_verbs() == flat.verbs@.take(vi as int).map_values(
                |v: FlattenVerb| path_verb_of(v),
            ),
            path.spec_points() == flat.points@.take(pi as int),
        decreases flat.verbs@.len() - vi,
    {
        proof {
            lemma_flat_points_for_step(flat.verbs@, vi as int);
            lemma_flat_points_for_prefix(flat.verbs@, vi + 1);
        }
        let verb = flat.verbs[vi];
        match verb {
            FlattenVerb::MoveTo => {
                path.move_to(flat.points[pi]);
                pi = pi + 1;
            },
            FlattenVerb::LineTo => {
                path.line_to(flat.points[pi]);
                pi = pi + 1;
            },
            FlattenVerb::Close => {
                path.close();
            },
        }
        assert(flat.points@.take(pi as int) =~= if verb == FlattenVerb::Close {
            flat.points@.take(flat_points_for(flat.verbs@.take(vi as int)) as int)
        } else {
            flat.points@.take(flat_points_for(flat.verbs@.take(vi as int)) as int).push(
                flat.points@[pi - 1],
            )
        });
        assert(flat.verbs@.take(vi + 1).map_values(|v: FlattenVerb| path_verb_of(v))
            =~= flat.verbs@.take(vi as int).map_values(|v: FlattenVerb| path_verb_of(v)).push(
            path_verb_of(verb),
        ));
        vi = vi + 1;
    }
    assert(flat.verbs@.take(vi as int) =~= flat.verbs@);
    path
}

/// Appends the polygon through `points` as one closed subpath (move to the first point, a
/// line to each following point, close); does nothing for fewer than three points.
pub fn add_polygon_to_flattened<P: Copy>(points: &[P], out: &mut FlattenedPath<P>)
    ensures
        points@.len() < 3 ==> *final(out) == *old(out),
        points@.len() >= 3 ==> {
            &&& final(out).points@ == old(out).points@ + points@
            &&& final(out).verbs@ == old(out).verbs@ + seq![FlattenVerb::MoveTo] + Seq::new(
                (points@.len() - 1) as nat,
                |i: int| FlattenVerb::LineTo,
            ) + seq![FlattenVerb::Close]
        },
{
    if points.len() < 3 {
        return;
    }
    let ghost p0 = out.points@;
    let ghost v0 = out.verbs@;
    out.points.push(points[0]);
    out.verbs.push(FlattenVerb::MoveTo);
    let mut i: usize = 1;
    while i < points.len()
        invariant
            1 <= i <= points@.len(),
            out.points@ == p0 + points@.take(i as int),
            out.verbs@ == v0 + seq![FlattenVerb::MoveTo] + Seq::new(
                (i - 1) as nat,
                |j: int| FlattenVerb::LineTo,
            ),
        decreases points@.len() - i,
    {
        out.points.push(points[i]);
        out.verbs.push(FlattenVerb::LineTo);
        assert(points@.take(i + 1) =~= points@.take(i as int).push(points@[i as int]));
        assert(Seq::new(i as nat, |j: int| FlattenVerb::LineTo) =~= Seq::new(
            (i - 1) as nat,
            |j: int| FlattenVerb::LineTo,
        ).push(FlattenVerb::LineTo));
        i = i + 1;
    }
    assert(points@.take(i as int) =~= points@);
    out.verbs.push(FlattenVerb::Close);
}

/// Appends the points of `src` to `out`, in order.
fn append_points<P: Copy>(out: &mut Vec<P>, src: &[P])
    ensures
        final(out)@ == old(out)@ + src@,
{
    let ghost o0 = out@;
    let mut i: usize = 0;
    while i < src.len()
        invariant
            i <= src@.len(),
            out@ == o0 + src@.take(i as int),
        decreases src@.len() - i,
    {
        out.push(src[i]);
        assert(src@.take(i + 1) =~= src@.take(i as int).push(src@[i as int]));
        i = i + 1;
    }
    assert(src@.take(i as int) =~= src@);
}

/// The outline polygon of a stroked subpath: the left offsets in order, the cap at the far
/// end, the right offsets walked backwards, then the cap at the start. A closed subpath
/// and a butt cap have empty caps.
pub fn join_outline<P: Copy>(left: &[P], end_cap: &[P], right: &[P], start_cap: &[P]) -> (outline:
    Vec<P>)
    ensures
        outline@ == left@ + end_cap@ + right@.reverse() + start_cap@,
{
    let mut outline: Vec<P> = Vec::new();
    append_points(&mut outline, left);
    append_points(&mut outline, end_cap);
    let ghost o1 = outline@;
    let mut k: usize = right.len();
    while k > 0
        invariant
            k <= right@.len(),
            outline@ == o1 + right@.reverse().take(right@.len() - k),
        decreases k,
    {
        k = k - 1;
        outline.push(right[k]);
        assert(right@.reverse().take(right@.len() - k) =~= right@.reverse().take(
            right@.len() - k - 1,
        ).push(right@[k as int]));
    }
    assert(right@.reverse().take(right@.len() as int) =~= right@.reverse());
    append_points(&mut outline, start_cap);
    outline
}

/// The segment normals that meet at point `i` of a subpath of `n` points, as indexes into
/// its normals (one per segment: `n` for a closed subpath, `n - 1` for an open one): the
/// normal before the point and the normal after it, each kept below the number of normals.
/// Going round a closed subpath, the one before point `i` is that of segment `i - 1`
/// (wrapping) and the one after is that of segment `i + 1` (wrapping); along an open one
/// they are those of segments `i - 1` and `i`, both `0` at the first point.
pub fn offset_normal_indices(i: usize, n: usize, closed: bool) -> (r: (usize, usize))
    requires
        2 <= n,
        i < n,
    ensures
        ({
            let m: int = if closed { n as int } else { n - 1 };
            let prev: int = if closed { (i + n - 1) as int % (n as int) } else if i == 0 { 0 } else { i - 1 };
            let next: int = if closed { (i + 1) as int % (n as int) } else if i == 0 { 0 } else { i as int % (n - 1) as int };
            &&& r.0 == if prev < m - 1 { prev } else { m - 1 }
            &&& r.1 == if next < m - 1 { next } else { m - 1 }
        }),
{
    let m = if closed { n } else { n - 1 };
    let prev_i = if closed {
        if i == 0 {
            n - 1
        } else {
            i - 1
        }
    } else if i == 0 {
        0
    } else {
        i - 1
    };
    proof {
        if closed {
            let x: int = (i + n - 1) as int;
            if i == 0 {
                assert(x % (n as int) == n - 1) by (nonlinear_arith)
                    requires x == n - 1, n >= 2;
            } else {
                assert(x % (n as int) == i - 1) by (nonlinear_arith)
                    requires x == (i - 1) + n, 1 <= i < n;
            }
        }
    }
    let next_i = if closed { (i + 1) % n } else if i == 0 { 0 } else { i % (n - 1) };
    let a = if prev_i < m - 1 { prev_i } else { m - 1 };
    let b = if next_i < m - 1 { next_i } else { m - 1 };
    (a, b)
}

/// A run of points that starts at a move, and whether a close came in it.
#[derive(Debug, Clone)]
pub struct SubPath<P> {
    pub points: Vec<P>,
    pub closed: bool,
}

/// The subpaths finished so far, the points of the subpath being read, and whether a
/// close came in it, after reading the first `k` verbs.
pub open spec fn split_state<P>(verbs: Seq<FlattenVerb>, points: Seq<P>, k: nat) -> (
    Seq<(Seq<P>, bool)>,
    Seq<P>,
    bool,
)
    decreases k,
{
    if k == 0 {
        (Seq::empty(), Seq::empty(), false)
    } else {
        let (done, current, closed) = split_state(verbs, points, (k - 1) as nat);
        let pi = flat_points_for(verbs.take(k - 1)) as int;
        match verbs[k - 1] {
            FlattenVerb::MoveTo => (
                if current.len() > 0 {
                    done.push((current, closed))
                } else {
                    done
                },
                seq![points[pi]],
                false,
            ),
            FlattenVerb::LineTo => (done, current.push(points[pi]), closed),
            FlattenVerb::Close => (done, current, true),
        }
    }
}

/// The subpaths of a flattened path: a new subpath begins at each move (an empty run is
/// dropped), and a subpath is closed when a close verb came after its last move.
pub open spec fn subpaths_of<P>(verbs: Seq<FlattenVerb>, points: Seq<P>) -> Seq<(Seq<P>, bool)> {
    let (done, current, closed) = split_state(verbs, points, verbs.len());
    if current.len() > 0 {
        done.push((current, closed))
    } else {
        done
    }
}

/// The points of the subpaths, one after the other.
pub open spec fn joined_points<P>(subpaths: Seq<(Seq<P>, bool)>) -> Seq<P> {
    subpaths.map_values(|s: (Seq<P>, bool)| s.0).flatten()
}

proof fn lemma_joined_push<P>(done: Seq<(Seq<P>, bool)>, s: (Seq<P>, bool))
    ensures
        joined_points(done.push(s)) == joined_points(done) + s.0,
{
    assert(done.push(s).map_values(|s: (Seq<P>, bool)| s.0) =~= done.map_values(
        |s: (Seq<P>, bool)| s.0,
    ).push(s.0));
    done.map_values(|s: (Seq<P>, bool)| s.0).lemma_flatten_push(s.0);
}

/// Reading the verbs consumes the points in order: the finished subpaths and the one being
/// read hold, one after the other, exactly the points used so far.
proof fn lemma_split_state_points<P>(verbs: Seq<FlattenVerb>, points: Seq<P>, k: nat)
    requires
        k <= verbs.len(),
        flat_points_for(verbs) <= points.len(),
    ensures
        ({
            let (done, current, closed) = split_state(verbs, points, k);
            joined_points(done) + current == points.take(flat_points_for(verbs.take(k as int))
                as int)
        }),
    decreases k,
{
    if k == 0 {
        assert(verbs.take(0) =~= Seq::<FlattenVerb>::empty());
        assert(Seq::<(Seq<P>, bool)>::empty().map_values(|s: (Seq<P>, bool)| s.0) =~= Seq::<
            Seq<P>,
        >::empty());
        assert(points.take(0) =~= Seq::<P>::empty());
    } else {
        lemma_split_state_points(verbs, points, (k - 1) as nat);
        lemma_flat_points_for_step(verbs, k - 1);
        lemma_flat_points_for_prefix(verbs, k as int);
        let (done, current, closed) = split_state(verbs, points, (k - 1) as nat);
        let pi = flat_points_for(verbs.take(k - 1)) as int;
        match verbs[k - 1] {
            FlattenVerb::MoveTo => {
                if current.len() > 0 {
                    lemma_joined_push(done, (current, closed));
                }
                assert(points.take(pi + 1) =~= points.take(pi).push(points[pi]));
                assert(joined_points(done) + current + seq![points[pi]] =~= (joined_points(done)
                    + current).push(points[pi]));
            },
            FlattenVerb::LineTo => {
                assert(points.take(pi + 1) =~= points.take(pi).push(points[pi]));
                assert(joined_points(done) + current.push(points[pi]) =~= (joined_points(done)
                    + current).push(points[pi]));
            },
            FlattenVerb::Close => {},
        }
    }
}

/// Splitting into subpaths loses and reorders nothing: the subpaths hold, one after the
/// other, exactly the points that the verbs use.
pub proof fn lemma_subpaths_keep_points<P>(verbs: Seq<FlattenVerb>, points: Seq<P>)
    requires
        flat_points_for(verbs) <= points.len(),
    ensures
        joined_points(subpaths_of(verbs, points)) == points.take(flat_points_for(verbs) as int),
{
    lemma_split_state_points(verbs, points, verbs.len());
    assert(verbs.take(verbs.len() as int) =~= verbs);
    let (done, current, closed) = split_state(verbs, points, verbs.len());
    if current.len() > 0 {
        lemma_joined_push(done, (current, closed));
    } else {
        assert(joined_points(done) + current =~= joined_points(done));
    }
}

/// Splits a flattened path into its subpaths (see `subpaths_of`).
pub fn extract_subpaths<P: Copy>(path: &FlattenedPath<P>) -> (subpaths: Vec<SubPath<P>>)
    requires
        flat_points_for(path.verbs@) <= path.points@.len(),
    ensures
        subpaths@.map_values(|s: SubPath<P>| (s.points@, s.closed)) == subpaths_of(
            path.verbs@,
            path.points@,
        ),
{
    let mut subpaths: Vec<SubPath<P>> = Vec::new();
    let mut current_points: Vec<P> = Vec::new();
    let mut closed = false;
    let np = path.points.len();
    let mut vi: usize = 0;
    let mut pi: usize = 0;
    while vi < path.verbs.len()
        invariant
            vi <= path.verbs@.len(),
            np == path.points@.len(),
            flat_points_for(path.verbs@) <= path.points@.len(),
            pi == flat_points_for(path.verbs@.take(vi as int)),
            ({
                let (done, current, cl) = split_state(path.verbs@, path.points@, vi as nat);
                &&& subpaths@.map_values(|s: SubPath<P>| (s.points@, s.closed)) == done
                &&& current_points@ == current
                &&& closed == cl
            }),
        decreases path.verbs@.len() - vi,
    {
        proof {
            lemma_flat_points_for_step(path.verbs@, vi as int);
            lemma_flat_points_for_prefix(path.verbs@, vi + 1);
        }
        let ghost before = subpaths@;
        match path.verbs[vi] {
            FlattenVerb::MoveTo => {
                if current_points.len() > 0 {
                    let finished = SubPath { points: current_points, closed };
                    subpaths.push(finished);
                    current_points = Vec::new();
                    assert(subpaths@.map_values(|s: SubPath<P>| (s.points@, s.closed))
                        =~= before.map_values(|s: SubPath<P>| (s.points@, s.closed)).push(
                        (finished.points@, finished.closed),
                    ));
                }
                current_points.push(path.points[pi]);
                closed = false;
                pi = pi + 1;
            },
            FlattenVerb::LineTo => {
                current_points.push(path.points[pi]);
                pi = pi + 1;
            },
            FlattenVerb::Close => {
                closed = true;
            },
        }
        vi = vi + 1;
    }
    assert(path.verbs@.len() == vi);
    if current_points.len() > 0 {
        let ghost before = subpaths@;
        let last = SubPath { points: current_points, closed };
        subpaths.push(last);
        assert(subpaths@.map_values(|s: SubPath<P>| (s.points@, s.closed)) =~= before.map_values(
            |s: SubPath<P>| (s.points@, s.closed),
        ).push((last.points@, last.closed)));
    }
    subpaths
}

} // verus!
