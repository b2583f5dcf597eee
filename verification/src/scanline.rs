//! The exact part of the scanline rasterizer: the segments a flattened path draws, the
//! order in which the scanlines reach the edges, the active edge list row by row, which
//! active edges open and close filled spans under each fill rule, and walking the pixels
//! of a span.
use vstd::prelude::*;
use crate::flatten::{flat_points_for, lemma_flat_points_for_prefix, lemma_flat_points_for_step,
    FlattenVerb, FlattenedPath};

verus! {

/// The four bytes of `bytes` from offset `off` on, as a pixel.
pub open spec fn four_bytes(bytes: Seq<u8>, off: int) -> [u8; 4] {
    [bytes[off], bytes[off + 1], bytes[off + 2], bytes[off + 3]]
}

/// Replaces the first pixel of `dst` by `blend(src, that pixel)`, where `blend` is the
/// source-over of one premultiplied pixel; the rest of `dst` is left as it was.
pub fn blend_pixel<F: Fn([u8; 4], [u8; 4]) -> [u8; 4]>(dst: &mut [u8], src: &[u8; 4], blend: F)
    requires
        old(dst)@.len() >= 4,
        forall|s: [u8; 4], d: [u8; 4]| call_requires(blend, (s, d)),
    ensures
        final(dst)@.len() == old(dst)@.len(),
        call_ensures(blend, (*src, four_bytes(old(dst)@, 0)), four_bytes(final(dst)@, 0)),
        forall|k: int| 4 <= k < old(dst)@.len() ==> #[trigger] final(dst)@[k] == old(dst)@[k],
{
    blend_pixel_at(dst, 0, src, &blend);
}

/// Replaces the pixel at byte offset `px` of `buffer` by `blend(rgba, that pixel)`.
fn blend_pixel_at<F: Fn([u8; 4], [u8; 4]) -> [u8; 4]>(
    buffer: &mut [u8],
    px: usize,
    rgba: &[u8; 4],
    blend: &F,
)
    requires
        px + 4 <= old(buffer)@.len(),
        forall|s: [u8; 4], d: [u8; 4]| call_requires(*blend, (s, d)),
    ensures
        final(buffer)@.len() == old(buffer)@.len(),
        call_ensures(
            *blend,
            (*rgba, four_bytes(old(buffer)@, px as int)),
            four_bytes(final(buffer)@, px as int),
        ),
        forall|k: int|
            0 <= k < old(buffer)@.len() && !(px <= k < px + 4) ==> #[trigger] final(buffer)@[k]
                == old(buffer)@[k],
{
    let d = [buffer[px], buffer[px + 1], buffer[px + 2], buffer[px + 3]];
    let r = blend(*rgba, d);
    buffer[px] = r[0];
    buffer[px + 1] = r[1];
    buffer[px + 2] = r[2];
    buffer[px + 3] = r[3];
    assert(four_bytes(buffer@, px as int) == r);
}

/// Blends `rgba` over pixels `x0 .. x1` of the row that starts at byte `row_start`, each
/// pixel becoming `blend(rgba, pixel)`. A span that does not end inside the buffer is
/// skipped whole.
pub fn fill_span<F: Fn([u8; 4], [u8; 4]) -> [u8; 4]>(
    buffer: &mut [u8],
    row_start: usize,
    x0: usize,
    x1: usize,
    rgba: &[u8; 4],
    blend: F,
)
    requires
        x0 <= x1,
        row_start + 4 * x1 <= usize::MAX,
        forall|s: [u8; 4], d: [u8; 4]| call_requires(blend, (s, d)),
    ensures
        final(buffer)@.len() == old(buffer)@.len(),
        row_start + 4 * x1 <= old(buffer)@.len() ==> {
            &&& forall|p: int|
                x0 <= p < x1 ==> call_ensures(
                    blend,
                    (*rgba, four_bytes(old(buffer)@, row_start + 4 * p)),
                    #[trigger] four_bytes(final(buffer)@, row_start + 4 * p),
                )
            &&& forall|k: int|
                0 <= k < old(buffer)@.len() && !(row_start + 4 * x0 <= k < row_start + 4 * x1)
                    ==> #[trigger] final(buffer)@[k] == old(buffer)@[k]
        },
        row_start + 4 * x1 > old(buffer)@.len() ==> final(buffer)@ == old(buffer)@,
{
    let offset = row_start + x0 * 4;
    let len = (x1 - x0) * 4;
    if offset + len <= buffer.len() {
        let ghost b0 = buffer@;
        let end = offset + len;
        let mut px = offset;
        let mut p: usize = x0;
        while px < end
            invariant
                offset <= px <= end,
                px == row_start + 4 * p,
                x0 <= p <= x1,
                end == row_start + 4 * x1,
                offset == row_start + 4 * x0,
                end <= b0.len(),
                buffer@.len() == b0.len(),
                forall|s: [u8; 4], d: [u8; 4]| call_requires(blend, (s, d)),
                forall|q: int|
                    x0 <= q < p ==> call_ensures(
                        blend,
                        (*rgba, four_bytes(b0, row_start + 4 * q)),
                        #[trigger] four_bytes(buffer@, row_start + 4 * q),
                    ),
                forall|k: int|
                    0 <= k < b0.len() && !(offset <= k < px) ==> #[trigger] buffer@[k] == b0[k],
            decreases end - px,
        {
            let ghost before = buffer@;
            blend_pixel_at(buffer, px, rgba, &blend);
            assert forall|q: int| x0 <= q < p + 1 implies call_ensures(
                blend,
                (*rgba, four_bytes(b0, row_start + 4 * q)),
                #[trigger] four_bytes(buffer@, row_start + 4 * q),
            ) by {
                if q < p {
                    assert(four_bytes(buffer@, row_start + 4 * q) == four_bytes(
                        before,
                        row_start + 4 * q,
                    ));
                } else {
                    assert(four_bytes(b0, row_start + 4 * q) == four_bytes(before, px as int));
                }
            }
            px = px + 4;
            p = p + 1;
        }
    }
}

/// The sum of the windings of the edges.
pub open spec fn winding_sum(w: Seq<i8>) -> int
    decreases w.len(),
{
    if w.len() == 0 {
        0
    } else {
        winding_sum(w.drop_last()) + w.last()
    }
}

proof fn lemma_winding_sum_step(w: Seq<i8>, k: int)
    requires
        0 <= k < w.len(),
    ensures
        winding_sum(w.take(k + 1)) == winding_sum(w.take(k)) + w[k],
{
    assert(w.take(k + 1).drop_last() =~= w.take(k));
}

/// The winding of a run of edges is the sum of its parts: of one edge, that edge's winding;
/// of two runs one after the other, the sum of their windings.
pub proof fn lemma_winding_sum_adds(a: Seq<i8>, b: Seq<i8>)
    ensures
        winding_sum(Seq::<i8>::empty()) == 0,
        a.len() == 1 ==> winding_sum(a) == a[0],
        winding_sum(a + b) == winding_sum(a) + winding_sum(b),
    decreases b.len(),
{
    if a.len() == 1 {
        assert(a.drop_last() =~= Seq::<i8>::empty());
        assert(winding_sum(a.drop_last()) == 0);
        assert(a.last() == a[0]);
    }
    if b.len() > 0 {
        lemma_winding_sum_adds(a, b.drop_last());
        assert((a + b).drop_last() =~= a + b.drop_last());
    } else {
        assert(a + b =~= a);
    }
}

/// Whether the winding is nonzero after the first `k` edges, that is, whether a point just
/// right of edge `k - 1` is inside under the nonzero rule.
pub open spec fn inside_after(w: Seq<i8>, k: int) -> bool {
    winding_sum(w.take(k)) != 0
}

/// The edge at which the span that is open after the first `k` edges began.
pub open spec fn span_opened_at(w: Seq<i8>, k: nat) -> nat
    decreases k,
{
    if k == 0 {
        0
    } else if !inside_after(w, k - 1) && inside_after(w, k as int) {
        (k - 1) as nat
    } else {
        span_opened_at(w, (k - 1) as nat)
    }
}

/// The spans closed among the first `k` edges under the nonzero rule: a span opens at an
/// edge after which the winding leaves zero and closes at the edge after which it returns
/// to zero.
pub open spec fn nonzero_spans(w: Seq<i8>, k: nat) -> Seq<(usize, usize)>
    decreases k,
{
    if k == 0 {
        Seq::empty()
    } else if inside_after(w, k - 1) && !inside_after(w, k as int) {
        nonzero_spans(w, (k - 1) as nat).push(
            (span_opened_at(w, (k - 1) as nat) as usize, (k - 1) as usize),
        )
    } else {
        nonzero_spans(w, (k - 1) as nat)
    }
}

/// The filled spans of a scanline under the nonzero winding rule: `windings` are the
/// windings of the active edges in the order in which the scanline crosses them, and each
/// span is the pair of the edge that opens it and the edge that closes it.
pub fn winding_spans(windings: &[i8]) -> (spans: Vec<(usize, usize)>)
    requires
        forall|k: int|
            0 <= k <= windings@.len() ==> i32::MIN <= #[trigger] winding_sum(windings@.take(k))
                <= i32::MAX,
    ensures
        spans@ == nonzero_spans(windings@, windings@.len()),
{
    let ghost w = windings@;
    let mut spans: Vec<(usize, usize)> = Vec::new();
    let mut winding: i32 = 0;
    let mut span_start: Option<usize> = None;
    let mut i: usize = 0;
    assert(w.take(0) =~= Seq::<i8>::empty());
    while i < windings.len()
        invariant
            w == windings@,
            i <= w.len(),
            forall|k: int|
                0 <= k <= w.len() ==> i32::MIN <= #[trigger] winding_sum(w.take(k)) <= i32::MAX,
            winding == winding_sum(w.take(i as int)),
            spans@ == nonzero_spans(w, i as nat),
            winding != 0 ==> span_start == Some(span_opened_at(w, i as nat) as usize),
            span_opened_at(w, i as nat) <= i,
        decreases w.len() - i,
    {
        proof {
            lemma_winding_sum_step(w, i as int);
        }
        assert(i32::MIN <= winding_sum(w.take(i + 1)) <= i32::MAX);
        let was_inside = winding != 0;
        winding = winding + windings[i] as i32;
        let is_inside = winding != 0;
        if !was_inside && is_inside {
            span_start = Some(i);
        } else if was_inside && !is_inside {
            if let Some(start) = span_start {
                spans.push((start, i));
            }
            span_start = None;
        }
        i = i + 1;
    }
    assert(w.take(w.len() as int) =~= w);
    spans
}

/// The filled spans of a scanline with `n` active edges under the even-odd rule: the edges
/// pair up in order, and a last edge left alone opens nothing.
pub fn even_odd_spans(n: usize) -> (spans: Vec<(usize, usize)>)
    ensures
        spans@.len() == n / 2,
        forall|i: int| 0 <= i < n / 2 ==> #[trigger] spans@[i] == ((2 * i) as usize, (2 * i + 1) as usize),
{
    let mut spans: Vec<(usize, usize)> = Vec::new();
    let mut inside = false;
    let mut span_start: usize = 0;
    let mut i: usize = 0;
    while i < n
        invariant
            i <= n,
            inside == (i % 2 == 1),
            inside ==> span_start == i - 1,
            spans@.len() == i / 2,
            forall|j: int| 0 <= j < i / 2 ==> #[trigger] spans@[j] == ((2 * j) as usize, (2 * j + 1) as usize),
        decreases n - i,
    {
        if inside {
            spans.push((span_start, i));
            inside = false;
        } else {
            span_start = i;
            inside = true;
        }
        i = i + 1;
    }
    spans
}


/// While a span is open, it began at an edge after which the winding left zero, and the
/// winding has stayed nonzero since.
proof fn lemma_open_span(w: Seq<i8>, k: nat)
    requires
        k <= w.len(),
        inside_after(w, k as int),
    ensures
        span_opened_at(w, k) < k,
        !inside_after(w, span_opened_at(w, k) as int),
        forall|j: int| span_opened_at(w, k) + 1 <= j <= k ==> #[trigger] inside_after(w, j),
    decreases k,
{
    if k == 0 {
        assert(w.take(0) =~= Seq::<i8>::empty());
    } else if inside_after(w, k - 1) {
        lemma_open_span(w, (k - 1) as nat);
    }
}

/// Each nonzero span is a maximal run of the scanline where the winding is nonzero: it opens
/// at an edge after which the winding leaves zero, closes at a later edge after which the
/// winding is back to zero, and the winding stays nonzero in between.
pub proof fn lemma_nonzero_spans_are_runs(w: Seq<i8>, k: nat, i: int)
    requires
        w.len() <= usize::MAX,
        k <= w.len(),
        0 <= i < nonzero_spans(w, k).len(),
    ensures
        ({
            let (s, e) = nonzero_spans(w, k)[i];
            &&& s < e < k
            &&& !inside_after(w, s as int)
            &&& !inside_after(w, e + 1)
            &&& forall|j: int| s + 1 <= j <= e ==> #[trigger] inside_after(w, j)
        }),
    decreases k,
{
    if k > 0 {
        let prev = nonzero_spans(w, (k - 1) as nat);
        if inside_after(w, k - 1) && !inside_after(w, k as int) && i == prev.len() {
            lemma_open_span(w, (k - 1) as nat);
        } else {
            lemma_nonzero_spans_are_runs(w, (k - 1) as nat, i);
        }
    }
}


/// Spans found among the first `k` edges stay as they are when more edges are read.
proof fn lemma_nonzero_spans_extend(w: Seq<i8>, k: nat, m: nat, i: int)
    requires
        k <= m,
        0 <= i < nonzero_spans(w, k).len(),
    ensures
        i < nonzero_spans(w, m).len(),
        nonzero_spans(w, m)[i] == nonzero_spans(w, k)[i],
    decreases m - k,
{
    if k < m {
        lemma_nonzero_spans_extend(w, k, (m - 1) as nat, i);
    }
}

/// No filled span is missed and they come in scanline order: for every edge `e` among the
/// first `k` after which the winding goes from nonzero back to zero, there is a span that
/// closes at `e`, and the spans close at increasing edges. With
/// `lemma_nonzero_spans_are_runs`, the spans are exactly the maximal nonzero runs that
/// close, one each, left to right.
pub proof fn lemma_nonzero_spans_complete(w: Seq<i8>, k: nat)
    requires
        w.len() <= usize::MAX,
        k <= w.len(),
    ensures
        forall|e: int|
            0 <= e < k && #[trigger] inside_after(w, e) && !inside_after(w, e + 1) ==> exists|
                i: int,
            |
                0 <= i < nonzero_spans(w, k).len() && #[trigger] nonzero_spans(w, k)[i].1 == e,
        forall|i: int, j: int|
            0 <= i < j < nonzero_spans(w, k).len() ==> #[trigger] nonzero_spans(w, k)[i].1
                < #[trigger] nonzero_spans(w, k)[j].1,
    decreases k,
{
    if k > 0 {
        let k1 = (k - 1) as nat;
        lemma_nonzero_spans_complete(w, k1);
        let prev = nonzero_spans(w, k1);
        let cur = nonzero_spans(w, k);
        assert forall|e: int|
            0 <= e < k && #[trigger] inside_after(w, e) && !inside_after(w, e + 1) implies exists|
                i: int,
            | 0 <= i < cur.len() && #[trigger] cur[i].1 == e by {
            if e < k1 {
                let i = choose|i: int| 0 <= i < prev.len() && #[trigger] prev[i].1 == e;
                lemma_nonzero_spans_extend(w, k1, k, i);
                assert(cur[i].1 == e);
            } else {
                assert(cur[cur.len() - 1].1 == e);
            }
        }
        assert forall|i: int, j: int| 0 <= i < j < cur.len() implies #[trigger] cur[i].1
            < #[trigger] cur[j].1 by {
            if j < prev.len() {
                assert(cur[i] == prev[i] && cur[j] == prev[j]);
            } else {
                assert(cur[i] == prev[i]);
                lemma_nonzero_spans_are_runs(w, k1, i);
            }
        }
    }
}

/// Whether one of the first `k` verbs is a move.
pub open spec fn moved_within(verbs: Seq<FlattenVerb>, k: nat) -> bool
    decreases k,
{
    k > 0 && (verbs[k - 1] == FlattenVerb::MoveTo || moved_within(verbs, (k - 1) as nat))
}

/// Every line of the path comes after some move.
pub open spec fn lines_follow_moves(verbs: Seq<FlattenVerb>) -> bool {
    forall|k: int|
        0 <= k < verbs.len() && #[trigger] verbs[k] == FlattenVerb::LineTo ==> moved_within(
            verbs,
            k as nat,
        )
}

/// The walk over the first `k` verbs of a flattened path: the segments drawn so far, the
/// first point of the current subpath and the point the pen is at (`None` before any move).
/// `same[j]` says whether the segment that verb `j` would draw has both ends at one point;
/// such a segment is not drawn, and a line that draws nothing leaves the pen where it is.
pub open spec fn edge_walk<P>(verbs: Seq<FlattenVerb>, points: Seq<P>, same: Seq<bool>, k: nat) -> (
    Seq<(P, P)>,
    Option<P>,
    Option<P>,
)
    decreases k,
{
    if k == 0 {
        (Seq::empty(), None, None)
    } else {
        let prev = edge_walk(verbs, points, same, (k - 1) as nat);
        let p = points[flat_points_for(verbs.take(k - 1)) as int];
        match verbs[k - 1] {
            FlattenVerb::MoveTo => (prev.0, Some(p), Some(p)),
            FlattenVerb::LineTo => if same[k - 1] {
                prev
            } else {
                (prev.0.push((prev.2.unwrap(), p)), prev.1, Some(p))
            },
            FlattenVerb::Close => if prev.2 is Some {
                if same[k - 1] {
                    (prev.0, prev.1, prev.1)
                } else {
                    (prev.0.push((prev.2.unwrap(), prev.1.unwrap())), prev.1, prev.1)
                }
            } else {
                prev
            },
        }
    }
}

/// The answer recorded for verb `k` is one that `same_point` gives on the two ends of the
/// segment that verb would draw: the pen's point and the line's point for a line, the pen's
/// point and the subpath's start for a close after a move.
pub open spec fn same_answer<P, E: Fn(P, P) -> bool>(
    verbs: Seq<FlattenVerb>,
    points: Seq<P>,
    same_point: E,
    same: Seq<bool>,
    k: int,
) -> bool {
    let walk = edge_walk(verbs, points, same, k as nat);
    let p = points[flat_points_for(verbs.take(k)) as int];
    &&& verbs[k] == FlattenVerb::LineTo ==> call_ensures(
        same_point,
        (walk.2.unwrap(), p),
        same[k],
    )
    &&& (verbs[k] == FlattenVerb::Close && walk.2 is Some) ==> call_ensures(
        same_point,
        (walk.2.unwrap(), walk.1.unwrap()),
        same[k],
    )
}

/// The walk over the first `k` verbs reads only the first `k` answers.
proof fn lemma_edge_walk_prefix<P>(
    verbs: Seq<FlattenVerb>,
    points: Seq<P>,
    s1: Seq<bool>,
    s2: Seq<bool>,
    k: nat,
)
    requires
        k <= s1.len(),
        k <= s2.len(),
        forall|j: int| 0 <= j < k ==> #[trigger] s1[j] == s2[j],
    ensures
        edge_walk(verbs, points, s1, k) == edge_walk(verbs, points, s2, k),
    decreases k,
{
    if k > 0 {
        lemma_edge_walk_prefix(verbs, points, s1, s2, (k - 1) as nat);
    }
}

/// The walk has a current point exactly when a move has been seen, and then a subpath start.
proof fn lemma_edge_walk_points<P>(
    verbs: Seq<FlattenVerb>,
    points: Seq<P>,
    same: Seq<bool>,
    k: nat,
)
    requires
        k <= verbs.len(),
        lines_follow_moves(verbs),
    ensures
        edge_walk(verbs, points, same, k).2 is Some <==> moved_within(verbs, k),
        edge_walk(verbs, points, same, k).1 is Some <==> edge_walk(verbs, points, same, k).2 is Some,
    decreases k,
{
    if k > 0 {
        lemma_edge_walk_points(verbs, points, same, (k - 1) as nat);
        if verbs[k - 1] == FlattenVerb::LineTo {
            assert(moved_within(verbs, (k - 1) as nat));
        }
    }
}

/// What each verb does to the segment walk. The segments drawn before are kept and at most
/// one is added; a segment that is added goes from where the pen stood to where the pen
/// stands after it. A move puts the pen and the subpath's start on its point and draws
/// nothing. A line keeps the subpath's start and draws exactly when its ends are not one
/// point, leaving the pen on its point, or where it was when nothing is drawn. A close after
/// a move brings the pen back to the subpath's start and draws exactly when the pen was
/// not already there.
pub proof fn lemma_edge_walk_step<P>(
    verbs: Seq<FlattenVerb>,
    points: Seq<P>,
    same: Seq<bool>,
    k: nat,
)
    requires
        k < verbs.len(),
        lines_follow_moves(verbs),
    ensures
        ({
            let before = edge_walk(verbs, points, same, k);
            let after = edge_walk(verbs, points, same, k + 1);
            let p = points[flat_points_for(verbs.take(k as int)) as int];
            let drawn = after.0.len() == before.0.len() + 1;
            &&& drawn || after.0.len() == before.0.len()
            &&& after.0.take(before.0.len() as int) == before.0
            &&& drawn ==> before.2 is Some && after.2 is Some && after.0.last() == (
                before.2.unwrap(),
                after.2.unwrap(),
            )
            &&& verbs[k as int] == FlattenVerb::MoveTo ==> after.1 == Some(p) && after.2 == Some(p)
                && !drawn
            &&& verbs[k as int] == FlattenVerb::LineTo ==> after.1 == before.1 && (drawn == !same[k as int])
                && after.2 == (if drawn { Some(p) } else { before.2 })
            &&& (verbs[k as int] == FlattenVerb::Close && before.2 is Some) ==> after.1 == before.1
                && after.2 == before.1 && (drawn == !same[k as int])
            &&& (verbs[k as int] == FlattenVerb::Close && before.2 is None) ==> after == before
        }),
{
    lemma_edge_walk_points(verbs, points, same, k);
    if verbs[k as int] == FlattenVerb::LineTo {
        assert(moved_within(verbs, k));
    }
    let before = edge_walk(verbs, points, same, k);
    let after = edge_walk(verbs, points, same, k + 1);
    assert(before.0.push(after.0.last()).take(before.0.len() as int) =~= before.0);
    assert(before.0.take(before.0.len() as int) =~= before.0);
}

/// Whether `line_segments` can walk the path: its verbs use no more points than it holds,
/// and each line comes after a move.
pub fn edges_walkable<P>(path: &FlattenedPath<P>) -> (b: bool)
    ensures
        b == (flat_points_for(path.verbs@) <= path.points@.len() && lines_follow_moves(
            path.verbs@,
        )),
{
    let ghost verbs = path.verbs@;
    let mut count: usize = 0;
    let mut moved = false;
    let mut follow = true;
    let mut vi: usize = 0;
    assert(verbs.take(0) =~= Seq::<FlattenVerb>::empty());
    while vi < path.verbs.len()
        invariant
            verbs == path.verbs@,
            vi <= verbs.len(),
            count == flat_points_for(verbs.take(vi as int)),
            count <= vi,
            moved == moved_within(verbs, vi as nat),
            follow == (forall|k: int|
                0 <= k < vi && #[trigger] verbs[k] == FlattenVerb::LineTo ==> moved_within(
                    verbs,
                    k as nat,
                )),
        decreases verbs.len() - vi,
    {
        proof {
            lemma_flat_points_for_step(verbs, vi as int);
        }
        match path.verbs[vi] {
            FlattenVerb::MoveTo => {
                count = count + 1;
                moved = true;
            },
            FlattenVerb::LineTo => {
                count = count + 1;
                if !moved {
                    follow = false;
                }
            },
            FlattenVerb::Close => {},
        }
        vi = vi + 1;
    }
    assert(verbs.take(verbs.len() as int) =~= verbs);
    count <= path.points.len() && follow
}

/// The line segments that a flattened path draws, each from the point the pen is at to the
/// point it goes to: one for each line, and one back to the subpath's start for each close
/// that follows a move, leaving out each segment whose ends `same_point` says are one point.
/// These are the edges that the scanline rasterizer fills between.
pub fn line_segments<P: Copy, E: Fn(P, P) -> bool>(path: &FlattenedPath<P>, same_point: E) -> (segs:
    Vec<(P, P)>)
    requires
        flat_points_for(path.verbs@) <= path.points@.len(),
        lines_follow_moves(path.verbs@),
        forall|a: P, b: P| call_requires(same_point, (a, b)),
    ensures
        exists|same: Seq<bool>|
            {
                &&& same.len() == path.verbs@.len()
                &&& forall|k: int|
                    0 <= k < path.verbs@.len() ==> #[trigger] same_answer(
                        path.verbs@,
                        path.points@,
                        same_point,
                        same,
                        k,
                    )
                &&& segs@ == edge_walk(path.verbs@, path.points@, same, path.verbs@.len()).0
            },
{
    let ghost gv = path.verbs@;
    let ghost gp = path.points@;
    let ghost mut same: Seq<bool> = Seq::empty();
    let np = path.points.len();
    let mut segs: Vec<(P, P)> = Vec::new();
    let mut first: Option<P> = None;
    let mut last: Option<P> = None;
    let mut vi: usize = 0;
    let mut pi: usize = 0;
    while vi < path.verbs.len()
        invariant
            gv == path.verbs@,
            gp == path.points@,
            np == gp.len(),
            vi <= gv.len(),
            flat_points_for(gv) <= gp.len(),
            lines_follow_moves(gv),
            forall|a: P, b: P| call_requires(same_point, (a, b)),
            pi == flat_points_for(gv.take(vi as int)),
            same.len() == vi,
            forall|k: int| 0 <= k < vi ==> #[trigger] same_answer(gv, gp, same_point, same, k),
            segs@ == edge_walk(gv, gp, same, vi as nat).0,
            first == edge_walk(gv, gp, same, vi as nat).1,
            last == edge_walk(gv, gp, same, vi as nat).2,
        decreases gv.len() - vi,
    {
        proof {
            lemma_flat_points_for_step(gv, vi as int);
            lemma_flat_points_for_prefix(gv, vi + 1);
            lemma_edge_walk_points(gv, gp, same, vi as nat);
        }
        let ghost mut answer: bool = false;
        match path.verbs[vi] {
            FlattenVerb::MoveTo => {
                first = Some(path.points[pi]);
                last = Some(path.points[pi]);
                pi = pi + 1;
            },
            FlattenVerb::LineTo => {
                let to = path.points[pi];
                match last {
                    Some(from) => {
                        let eq = same_point(from, to);
                        proof {
                            answer = eq;
                        }
                        if !eq {
                            segs.push((from, to));
                            last = Some(to);
                        }
                    },
                    None => {},
                }
                pi = pi + 1;
            },
            FlattenVerb::Close => {
                match (last, first) {
                    (Some(from), Some(to)) => {
                        let eq = same_point(from, to);
                        proof {
                            answer = eq;
                        }
                        if !eq {
                            segs.push((from, to));
                        }
                    },
                    _ => {},
                }
                last = first;
            },
        }
        proof {
            let s2 = same.push(answer);
            lemma_edge_walk_prefix(gv, gp, same, s2, vi as nat);
            assert forall|k: int| 0 <= k < vi + 1 implies #[trigger] same_answer(
                gv,
                gp,
                same_point,
                s2,
                k,
            ) by {
                if k < vi {
                    lemma_edge_walk_prefix(gv, gp, same, s2, k as nat);
                    assert(same_answer(gv, gp, same_point, same, k));
                    assert(s2[k] == same[k]);
                }
            }
            same = s2;
        }
        vi = vi + 1;
    }
    segs
}

/// The rows of an edge of the scanline rasterizer: it is crossed by the scanlines
/// `top .. bottom`, and `winding` is +1 for an edge that goes down and -1 for one that
/// goes up. Its horizontal position is kept beside it, by its index, by the caller.
#[derive(Debug, Clone, Copy, PartialEq, Eq)]
pub struct EdgeRows {
    pub top: i32,
    pub bottom: i32,
    pub winding: i8,
}

/// An edge that the current scanline crosses: its index among the path's edges, the row
/// at which it ends and its winding.
#[derive(Debug, Clone, Copy, PartialEq, Eq)]
pub struct ActiveEdge {
    pub edge: usize,
    pub y_end: i32,
    pub winding: i8,
}

/// The scan order is a strict order by top row: an edge comes before another only when it
/// starts no lower, of two edges one comes first exactly when they are distinct, and with
/// equal top rows the one with the smaller index comes first.
pub proof fn lemma_top_before_orders_rows(edges: Seq<EdgeRows>, i: usize, j: usize, l: usize)
    requires
        i < edges.len(),
        j < edges.len(),
        l < edges.len(),
    ensures
        top_before(edges, i, j) ==> edges[i as int].top <= edges[j as int].top,
        edges[i as int].top < edges[j as int].top ==> top_before(edges, i, j),
        !top_before(edges, i, i),
        i != j ==> (top_before(edges, i, j) != top_before(edges, j, i)),
        top_before(edges, i, j) && top_before(edges, j, l) ==> top_before(edges, i, l),
        edges[i as int].top == edges[j as int].top ==> (top_before(edges, i, j) == (i < j)),
{
}

/// Edge `i` comes before edge `j` when the scan order is by top row, ties kept in
/// index order.
pub open spec fn top_before(edges: Seq<EdgeRows>, i: usize, j: usize) -> bool {
    edges[i as int].top < edges[j as int].top || (edges[i as int].top == edges[j as int].top
        && i < j)
}

/// The indexes of `edges` in the order in which the scanlines reach them: by top row, and
/// edges with the same top row in their own order (a stable sort). Being `edges.len()`
/// distinct indexes below `edges.len()`, the result holds each index exactly once.
pub fn order_by_top(edges: &[EdgeRows]) -> (order: Vec<usize>)
    ensures
        order@.len() == edges@.len(),
        forall|k: int| 0 <= k < order@.len() ==> #[trigger] order@[k] < edges@.len(),
        forall|k1: int, k2: int|
            0 <= k1 < k2 < order@.len() ==> top_before(edges@, #[trigger] order@[k1],
                #[trigger] order@[k2]),
{
    let mut order: Vec<usize> = Vec::new();
    let mut i: usize = 0;
    while i < edges.len()
        invariant
            i <= edges@.len(),
            order@.len() == i,
            forall|k: int| 0 <= k < order@.len() ==> #[trigger] order@[k] < i,
            forall|k1: int, k2: int|
                0 <= k1 < k2 < order@.len() ==> top_before(edges@, #[trigger] order@[k1],
                    #[trigger] order@[k2]),
        decreases edges@.len() - i,
    {
        let top = edges[i].top;
        let mut p: usize = 0;
        while p < order.len() && edges[order[p]].top <= top
            invariant
                p <= order@.len(),
                order@.len() == i,
                i < edges@.len(),
                top == edges@[i as int].top,
                forall|k: int| 0 <= k < order@.len() ==> #[trigger] order@[k] < i,
                forall|k: int| 0 <= k < p ==> edges@[#[trigger] order@[k] as int].top <= top,
            decreases order@.len() - p,
        {
            p = p + 1;
        }
        let ghost old_order = order@;
        proof {
            assert forall|k: int| p <= k < old_order.len() implies top < edges@[
                #[trigger] old_order[k] as int].top by {
                if k > p {
                    assert(top_before(edges@, old_order[p as int], old_order[k]));
                }
            }
        }
        order.insert(p, i);
        proof {
            assert forall|k: int| 0 <= k < order@.len() implies #[trigger] order@[k] < i + 1 by {
                if k > p {
                    assert(order@[k] == old_order[k - 1]);
                }
            }
            assert forall|k1: int, k2: int| 0 <= k1 < k2 < order@.len() implies top_before(
                edges@,
                #[trigger] order@[k1],
                #[trigger] order@[k2],
            ) by {
                if k2 < p {
                    assert(top_before(edges@, old_order[k1], old_order[k2]));
                } else if k2 == p {
                    assert(edges@[old_order[k1] as int].top <= top);
                } else if k1 < p {
                    assert(order@[k2] == old_order[k2 - 1]);
                    assert(edges@[old_order[k1] as int].top <= top);
                } else if k1 == p {
                    assert(order@[k2] == old_order[k2 - 1]);
                } else {
                    assert(top_before(edges@, old_order[k1 - 1], old_order[k2 - 1]));
                }
            }
        }
        i = i + 1;
    }
    order
}

/// The first position of `order`, from `next` on, whose edge does not start at row `y`.
pub open spec fn admitted_end(edges: Seq<EdgeRows>, order: Seq<usize>, next: int, y: i32) -> int
    decreases order.len() - next,
{
    if 0 <= next < order.len() && edges[order[next] as int].top == y {
        admitted_end(edges, order, next + 1, y)
    } else {
        next
    }
}

/// The edges admitted at row `y` are exactly those of the run from `next` on whose top row is
/// `y`: every position before the stop holds an edge starting at `y`, and the stop is the
/// end of the order or an edge that starts elsewhere.
pub proof fn lemma_admitted_end_stops(edges: Seq<EdgeRows>, order: Seq<usize>, next: int, y: i32)
    requires
        0 <= next <= order.len(),
        forall|k: int| 0 <= k < order.len() ==> #[trigger] order[k] < edges.len(),
    ensures
        next <= admitted_end(edges, order, next, y) <= order.len(),
        forall|p: int|
            next <= p < admitted_end(edges, order, next, y) ==> edges[#[trigger] order[p] as int].top
                == y,
        admitted_end(edges, order, next, y) == order.len() || edges[order[admitted_end(
            edges,
            order,
            next,
            y,
        )] as int].top != y,
    decreases order.len() - next,
{
    if next < order.len() && edges[order[next] as int].top == y {
        lemma_admitted_end_stops(edges, order, next + 1, y);
    }
}

/// Edge `e` as it enters the active list.
pub open spec fn as_active(edges: Seq<EdgeRows>, e: usize) -> ActiveEdge {
    ActiveEdge { edge: e, y_end: edges[e as int].bottom, winding: edges[e as int].winding }
}

/// The edges that enter the active list at scanline `y`: from position `next` of the scan
/// order on, each edge whose top row is `y` is appended, until the first that starts
/// elsewhere. Returns the position at which the next scanline goes on.
pub fn admit_edges(
    active: &mut Vec<ActiveEdge>,
    edges: &[EdgeRows],
    order: &[usize],
    next: usize,
    y: i32,
) -> (end: usize)
    requires
        next <= order@.len(),
        forall|k: int| 0 <= k < order@.len() ==> #[trigger] order@[k] < edges@.len(),
    ensures
        end == admitted_end(edges@, order@, next as int, y),
        next <= end <= order@.len(),
        final(active)@ == old(active)@ + order@.subrange(next as int, end as int).map_values(
            |e: usize| as_active(edges@, e),
        ),
{
    let mut i: usize = next;
    while i < order.len() && edges[order[i]].top == y
        invariant
            next <= i <= order@.len(),
            forall|k: int| 0 <= k < order@.len() ==> #[trigger] order@[k] < edges@.len(),
            admitted_end(edges@, order@, next as int, y) == admitted_end(edges@, order@, i as int, y),
            active@ == old(active)@ + order@.subrange(next as int, i as int).map_values(
                |e: usize| as_active(edges@, e),
            ),
        decreases order@.len() - i,
    {
        let idx = order[i];
        active.push(ActiveEdge { edge: idx, y_end: edges[idx].bottom, winding: edges[idx].winding });
        proof {
            assert(order@.subrange(next as int, i + 1) =~= order@.subrange(next as int, i as int).push(
                idx,
            ));
        }
        i = i + 1;
        proof {
            assert(active@ =~= old(active)@ + order@.subrange(next as int, i as int).map_values(
                |e: usize| as_active(edges@, e),
            ));
        }
    }
    i
}

/// An edge that enters the active list at its top row `y` is still there once the row's
/// finished edges have left, unless it ends at that row: it keeps its index, the row at
/// which it ends and its winding.
pub proof fn lemma_admitted_edges_stay(
    active: Seq<ActiveEdge>,
    edges: Seq<EdgeRows>,
    order: Seq<usize>,
    next: int,
    y: i32,
    p: int,
)
    requires
        0 <= next <= order.len(),
        forall|k: int| 0 <= k < order.len() ==> #[trigger] order[k] < edges.len(),
        next <= p < admitted_end(edges, order, next, y),
        edges[order[p] as int].top < edges[order[p] as int].bottom,
    ensures
        (active + order.subrange(next, admitted_end(edges, order, next, y)).map_values(
            |e: usize| as_active(edges, e),
        )).filter(|a: ActiveEdge| y < a.y_end).contains(
            ActiveEdge {
                edge: order[p],
                y_end: edges[order[p] as int].bottom,
                winding: edges[order[p] as int].winding,
            },
        ),
{
    lemma_admitted_end_stops(edges, order, next, y);
    let end = admitted_end(edges, order, next, y);
    let all = active + order.subrange(next, end).map_values(|e: usize| as_active(edges, e));
    let pred = |a: ActiveEdge| y < a.y_end;
    let i = active.len() + (p - next);
    assert(all[i] == as_active(edges, order[p]));
    assert(edges[order[p] as int].top == y);
    assert(pred(all[i]));
    all.lemma_filter_contains(pred, i);
}

/// Drops from the active list each edge that ends at or above scanline `y`, keeping the
/// others in their order.
pub fn retire_edges(active: &mut Vec<ActiveEdge>, y: i32)
    ensures
        final(active)@ == old(active)@.filter(|a: ActiveEdge| y < a.y_end),
        forall|k: int| 0 <= k < final(active)@.len() ==> y < #[trigger] final(active)@[k].y_end,
{
    let ghost before = active@;
    let mut kept: Vec<ActiveEdge> = Vec::new();
    let mut i: usize = 0;
    proof {
        assert(before.take(0) =~= Seq::<ActiveEdge>::empty());
        reveal(Seq::filter);
    }
    while i < active.len()
        invariant
            active@ == before,
            i <= before.len(),
            kept@ == before.take(i as int).filter(|a: ActiveEdge| y < a.y_end),
        decreases before.len() - i,
    {
        let a = active[i];
        if y < a.y_end {
            kept.push(a);
        }
        proof {
            let t = before.take(i + 1);
            assert(t.drop_last() =~= before.take(i as int));
            assert(t.last() == a);
            reveal(Seq::filter);
        }
        i = i + 1;
    }
    proof {
        assert(before.take(before.len() as int) =~= before);
        let pred = |a: ActiveEdge| y < a.y_end;
        assert(kept@ == before.filter(pred));
        assert forall|k: int| 0 <= k < kept@.len() implies y < #[trigger] kept@[k].y_end by {
            before.lemma_filter_pred(pred, k);
        }
    }
    *active = kept;
}

/// The rows that the edges span: from the smallest top row to the largest bottom row,
/// `(0, 0)` where there is no edge.
pub fn row_range(edges: &[EdgeRows]) -> (range: (i32, i32))
    ensures
        edges@.len() == 0 ==> range == (0i32, 0i32),
        edges@.len() > 0 ==> (exists|k: int| 0 <= k < edges@.len() && #[trigger] edges@[k].top
            == range.0) && (exists|k: int| 0 <= k < edges@.len() && #[trigger] edges@[k].bottom
            == range.1),
        forall|k: int|
            0 <= k < edges@.len() ==> range.0 <= #[trigger] edges@[k].top && edges@[k].bottom
                <= range.1,
{
    if edges.len() == 0 {
        return (0, 0);
    }
    let mut lo: i32 = edges[0].top;
    let mut hi: i32 = edges[0].bottom;
    let mut i: usize = 1;
    while i < edges.len()
        invariant
            1 <= i <= edges@.len(),
            exists|k: int| 0 <= k < edges@.len() && #[trigger] edges@[k].top == lo,
            exists|k: int| 0 <= k < edges@.len() && #[trigger] edges@[k].bottom == hi,
            forall|k: int| 0 <= k < i ==> lo <= #[trigger] edges@[k].top && edges@[k].bottom <= hi,
        decreases edges@.len() - i,
    {
        if edges[i].top < lo {
            lo = edges[i].top;
        }
        if edges[i].bottom > hi {
            hi = edges[i].bottom;
        }
        i = i + 1;
    }
    (lo, hi)
}

/// The bookkeeping of scanline `y` of a buffer `height` rows high. A row outside the buffer
/// is skipped: nothing enters or leaves the active list, and `None` is returned. Otherwise
/// the edges that start at `y` enter (as `admit_edges`), then those that end at or above
/// `y` leave (as `retire_edges`), and the position at which the scan order goes on is
/// returned.
pub fn begin_row(
    active: &mut Vec<ActiveEdge>,
    edges: &[EdgeRows],
    order: &[usize],
    next: usize,
    y: i32,
    height: u32,
) -> (r: Option<usize>)
    requires
        next <= order@.len(),
        forall|k: int| 0 <= k < order@.len() ==> #[trigger] order@[k] < edges@.len(),
    ensures
        (y < 0 || y >= height) ==> r is None && final(active)@ == old(active)@,
        0 <= y < height ==> r == Some(admitted_end(edges@, order@, next as int, y) as usize)
            && final(active)@ == (old(active)@ + order@.subrange(
            next as int,
            admitted_end(edges@, order@, next as int, y),
        ).map_values(|e: usize| as_active(edges@, e))).filter(|a: ActiveEdge| y < a.y_end),
        0 <= y < height ==> forall|k: int|
            0 <= k < final(active)@.len() ==> y < #[trigger] final(active)@[k].y_end,
{
    if y < 0 || y as i64 >= height as i64 {
        return None;
    }
    let end = admit_edges(active, edges, order, next, y);
    retire_edges(active, y);
    Some(end)
}

} // verus!
