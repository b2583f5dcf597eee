use sorot::cache::{make_key, make_key_in_order, PathCache};
use sorot::flatten::FlattenVerb::{Close, LineTo, MoveTo};
use sorot::flatten::{flatten_path, FlattenedPath};
use sorot::path::{Path, PathVerb};
use std::cell::Cell;
use std::hash::{Hash, Hasher};

type Pt = (f32, f32);

fn end_of_quad(_from: Pt, _ctrl: Pt, to: Pt) -> Vec<Pt> {
    vec![to]
}

fn end_of_cubic(_from: Pt, _c1: Pt, _c2: Pt, to: Pt) -> Vec<Pt> {
    vec![to]
}

fn same(a: Pt, b: Pt) -> bool {
    a == b
}

fn flatten_lines(p: &Path<Pt>) -> FlattenedPath<Pt> {
    flatten_path(p, (0.0, 0.0), end_of_quad, end_of_cubic, same)
}

fn rect(min: Pt, max: Pt) -> Path<Pt> {
    let mut path = Path::new();
    path.move_to((min.0, min.1));
    path.line_to((max.0, min.1));
    path.line_to((max.0, max.1));
    path.line_to((min.0, max.1));
    path.close();
    path
}

fn circle(center: Pt, r: f32) -> Path<Pt> {
    let k = 0.5522847498_f32;
    let kr = r * k;
    let (cx, cy) = center;
    let mut p = Path::new();
    p.move_to((cx + r, cy));
    p.cubic_to((cx + r, cy + kr), (cx + kr, cy + r), (cx, cy + r));
    p.cubic_to((cx - kr, cy + r), (cx - r, cy + kr), (cx - r, cy));
    p.cubic_to((cx - r, cy - kr), (cx - kr, cy - r), (cx, cy - r));
    p.cubic_to((cx + kr, cy - r), (cx + r, cy - kr), (cx + r, cy));
    p.close();
    p
}

fn key_of(p: &Path<Pt>, tolerance: f32) -> u64 {
    let mut bits = Vec::new();
    for q in p.points() {
        bits.push(q.0.to_bits());
        bits.push(q.1.to_bits());
    }
    make_key(p.verbs(), &bits, tolerance.to_bits())
}

#[test]
fn test_flatten_line() {
    let mut p = Path::new();
    p.move_to((0.0, 0.0));
    p.line_to((100.0, 0.0));
    let f = flatten_lines(&p);
    assert_eq!(f.verbs.len(), 2);
}

#[test]
fn test_flatten_rect() {
    let p = rect((0.0, 0.0), (100.0, 100.0));
    let f = flatten_lines(&p);
    assert_eq!(f.verbs.len(), 6);
}

#[test]
fn test_flatten_circle() {
    let p = circle((50.0, 50.0), 40.0);
    let f = flatten_lines(&p);
    assert!(f.verbs.len() > 4);
}

#[test]
fn test_flatten_quad() {
    let mut p = Path::new();
    p.move_to((0.0, 0.0));
    p.quad_to((50.0, 100.0), (100.0, 0.0));
    let f = flatten_lines(&p);
    assert!(f.verbs.len() >= 2);
}

#[test]
fn flatten_closes_back_to_start() {
    let f = flatten_lines(&rect((0.0, 0.0), (100.0, 50.0)));
    assert_eq!(f.verbs, vec![MoveTo, LineTo, LineTo, LineTo, LineTo, Close]);
    assert_eq!(
        f.points,
        vec![(0.0, 0.0), (100.0, 0.0), (100.0, 50.0), (0.0, 50.0), (0.0, 0.0)]
    );
}

#[test]
fn flatten_skips_the_closing_line_when_already_at_start() {
    let mut p = Path::new();
    p.move_to((1.0, 1.0));
    p.line_to((5.0, 1.0));
    p.line_to((1.0, 1.0));
    p.close();
    let f = flatten_lines(&p);
    assert_eq!(f.verbs, vec![MoveTo, LineTo, LineTo, Close]);
    assert_eq!(f.points.len(), 3);
}

#[test]
fn flatten_keeps_only_the_last_of_repeated_moves_until_drawn() {
    let mut p = Path::new();
    p.move_to((1.0, 1.0));
    p.move_to((2.0, 2.0));
    p.line_to((3.0, 3.0));
    p.move_to((9.0, 9.0));
    let f = flatten_lines(&p);
    // the first move is written out when the second one comes, the last one never is
    assert_eq!(f.verbs, vec![MoveTo, MoveTo, LineTo]);
    assert_eq!(f.points, vec![(1.0, 1.0), (2.0, 2.0), (3.0, 3.0)]);
}

#[test]
fn flatten_hands_curves_to_the_flatteners() {
    let mut p = Path::new();
    p.move_to((0.0, 0.0));
    p.quad_to((50.0, 100.0), (100.0, 0.0));
    let f = flatten_path(
        &p,
        (0.0, 0.0),
        |from: Pt, ctrl: Pt, to: Pt| vec![from, ctrl, to],
        end_of_cubic,
        same,
    );
    assert_eq!(f.verbs, vec![MoveTo, LineTo, LineTo, LineTo]);
    assert_eq!(f.points, vec![(0.0, 0.0), (0.0, 0.0), (50.0, 100.0), (100.0, 0.0)]);
}

#[test]
fn flatten_close_after_move_only_writes_nothing() {
    let mut p = Path::new();
    p.move_to((4.0, 4.0));
    p.close();
    let f = flatten_lines(&p);
    assert!(f.is_empty());
    assert!(f.points.is_empty());
}

#[test]
fn flatten_circle_uses_one_line_per_flattened_point() {
    let p = circle((50.0, 50.0), 40.0);
    let f = flatten_path(
        &p,
        (0.0, 0.0),
        end_of_quad,
        |_a: Pt, b: Pt, c: Pt, d: Pt| vec![b, c, d],
        same,
    );
    // move, 4 curves of 3 lines, and a close that is already at the start
    assert_eq!(f.verbs.len(), 1 + 12 + 1);
    assert_eq!(f.verbs[13], Close);
}

#[test]
fn cache_test_cache_hit() {
    let mut c = PathCache::new();
    let p = rect((0.0, 0.0), (100.0, 100.0));
    let calls = Cell::new(0);
    let a = c
        .get_or_flatten(key_of(&p, 0.5), || {
            calls.set(calls.get() + 1);
            flatten_lines(&p)
        })
        .clone();
    let b = c
        .get_or_flatten(key_of(&p, 0.5), || {
            calls.set(calls.get() + 1);
            flatten_lines(&p)
        })
        .clone();
    assert_eq!(calls.get(), 1);
    assert_eq!(a.points, b.points);
    assert_eq!(a.verbs, b.verbs);
    assert_eq!(c.len(), 1);
}

#[test]
fn cache_test_test_cache_hit() {
    let mut c = PathCache::new();
    let p = rect((0.0, 0.0), (100.0, 100.0));
    let calls = Cell::new(0);
    let first = c
        .get_or_flatten(key_of(&p, 0.5), || {
            calls.set(calls.get() + 1);
            flatten_lines(&p)
        })
        .verbs
        .len();
    let again = c
        .get_or_flatten(key_of(&p, 0.5), || {
            calls.set(calls.get() + 1);
            FlattenedPath::new()
        })
        .verbs
        .len();
    assert_eq!(calls.get(), 1);
    assert_eq!(first, again);
}

#[test]
fn cache_test_different_tolerance_miss() {
    let mut c = PathCache::new();
    let p = circle((50.0, 50.0), 30.0);
    c.get_or_flatten(key_of(&p, 0.5), || flatten_lines(&p));
    c.get_or_flatten(key_of(&p, 1.0), || flatten_lines(&p));
    assert_eq!(c.len(), 2);
}

#[test]
fn cache_test_test_different_tolerance_miss() {
    let mut c = PathCache::new();
    let p = circle((50.0, 50.0), 30.0);
    c.get_or_flatten(key_of(&p, 0.5), || flatten_lines(&p));
    c.get_or_flatten(key_of(&p, 1.0), || flatten_lines(&p));
    assert_eq!(c.len(), 2);
}

#[test]
fn cache_clear_and_default() {
    let mut c: PathCache<Pt> = PathCache::default();
    let p = rect((0.0, 0.0), (1.0, 1.0));
    c.get_or_flatten(7, || flatten_lines(&p));
    assert_eq!(c.len(), 1);
    c.clear();
    assert_eq!(c.len(), 0);
}

#[test]
fn keys_follow_verbs_points_and_tolerance() {
    let a = rect((0.0, 0.0), (100.0, 100.0));
    let b = rect((0.0, 0.0), (100.0, 101.0));
    assert_eq!(key_of(&a, 0.5), key_of(&a, 0.5));
    assert_ne!(key_of(&a, 0.5), key_of(&a, 0.25));
    assert_ne!(key_of(&a, 0.5), key_of(&b, 0.5));
    let verbs_only = make_key(&[PathVerb::MoveTo], &[], 0);
    let other_verb = make_key(&[PathVerb::LineTo], &[], 0);
    assert_ne!(verbs_only, other_verb);
}

/// The key as `Hash` for `u8` and `u32` feeds the default hasher.
fn hashed_key(verbs: &[PathVerb], bits: &[u32], tolerance_bits: u32) -> u64 {
    let mut h = std::collections::hash_map::DefaultHasher::new();
    for v in verbs {
        let code: u8 = match v {
            PathVerb::MoveTo => 0,
            PathVerb::LineTo => 1,
            PathVerb::QuadTo => 2,
            PathVerb::CubicTo => 3,
            PathVerb::Close => 4,
        };
        code.hash(&mut h);
    }
    for b in bits {
        b.hash(&mut h);
    }
    tolerance_bits.hash(&mut h);
    h.finish()
}

#[test]
fn make_key_hashes_words_in_native_order() {
    let verbs = [PathVerb::MoveTo, PathVerb::LineTo, PathVerb::Close];
    let bits = [0x3f80_0000u32, 0x4120_0000, 0x0102_0304, 7];
    let tol = 0.5f32.to_bits();
    let big = 1u32.to_ne_bytes()[0] == 0;
    let key = make_key(&verbs, &bits, tol);
    assert_eq!(key, hashed_key(&verbs, &bits, tol));
    assert_eq!(key, make_key_in_order(&verbs, &bits, tol, big));
    assert_ne!(make_key_in_order(&verbs, &bits, tol, false), make_key_in_order(&verbs, &bits, tol, true));
}
