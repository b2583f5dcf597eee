use sorot::flatten::FlattenVerb::{Close, LineTo, MoveTo};
use sorot::flatten::{FlattenVerb, FlattenedPath};
use sorot::path::{Path, PathVerb};
use sorot::stroke::{
    add_polygon_to_flattened, extract_subpaths, flattened_to_path, join_outline, offset_normal_indices,
};

#[derive(Debug, Clone, Copy, PartialEq)]
struct Vec2 {
    x: f32,
    y: f32,
}

impl Vec2 {
    fn new(x: f32, y: f32) -> Self {
        Self { x, y }
    }
}

fn collect_verbs(p: &Path<Vec2>) -> Vec<(PathVerb, Vec<Vec2>)> {
    let mut it = p.iter();
    let mut out = Vec::new();
    while let Some(seg) = it.next() {
        out.push((seg.verb, seg.points.to_vec()));
    }
    out
}

#[test]
fn path_test_path_builder() {
    let mut p = Path::new();
    p.move_to(Vec2::new(0.0, 0.0));
    p.line_to(Vec2::new(10.0, 0.0));
    p.line_to(Vec2::new(10.0, 10.0));
    p.close();
    assert_eq!(p.verb_count(), 4);
    assert_eq!(p.point_count(), 3);
}

#[test]
fn path_test_test_path_builder() {
    let mut p = Path::new();
    p.move_to(Vec2::new(0.0, 0.0));
    p.line_to(Vec2::new(10.0, 0.0));
    p.line_to(Vec2::new(10.0, 10.0));
    p.close();
    assert_eq!(p.verb_count(), 4);
    assert_eq!(p.point_count(), 3);
}

#[test]
fn path_test_path_iter() {
    let mut p = Path::new();
    p.move_to(Vec2::new(0.0, 0.0));
    p.line_to(Vec2::new(10.0, 5.0));
    p.quad_to(Vec2::new(5.0, 10.0), Vec2::new(0.0, 5.0));
    p.close();

    let segments = collect_verbs(&p);
    assert_eq!(segments.len(), 4);
    assert_eq!(segments[0].0, PathVerb::MoveTo);
    assert_eq!(segments[1].0, PathVerb::LineTo);
    assert_eq!(segments[2].0, PathVerb::QuadTo);
    assert_eq!(segments[3].0, PathVerb::Close);
}

#[test]
fn path_test_test_path_iter() {
    let mut p = Path::new();
    p.move_to(Vec2::new(0.0, 0.0));
    p.line_to(Vec2::new(10.0, 5.0));
    p.quad_to(Vec2::new(5.0, 10.0), Vec2::new(0.0, 5.0));
    p.close();

    let segments = collect_verbs(&p);
    assert_eq!(segments.len(), 4);
    assert_eq!(segments[0].0, PathVerb::MoveTo);
    assert_eq!(segments[1].0, PathVerb::LineTo);
    assert_eq!(segments[2].0, PathVerb::QuadTo);
    assert_eq!(segments[3].0, PathVerb::Close);
}

#[test]
fn iter_hands_out_each_segments_points() {
    let mut p: Path<(i32, i32)> = Path::with_capacity(4, 8);
    p.move_to((0, 0));
    p.cubic_to((1, 1), (2, 2), (3, 3));
    p.quad_to((4, 4), (5, 5));
    p.close();
    p.line_to((6, 6));
    let mut it = p.iter();
    assert_eq!(it.size_hint(), (5, Some(5)));
    let s = it.next().unwrap();
    assert_eq!((s.verb, s.points), (PathVerb::MoveTo, &[(0, 0)][..]));
    let s = it.next().unwrap();
    assert_eq!((s.verb, s.points), (PathVerb::CubicTo, &[(1, 1), (2, 2), (3, 3)][..]));
    let s = it.next().unwrap();
    assert_eq!((s.verb, s.points), (PathVerb::QuadTo, &[(4, 4), (5, 5)][..]));
    let s = it.next().unwrap();
    assert_eq!((s.verb, s.points.len()), (PathVerb::Close, 0));
    assert_eq!(it.size_hint(), (1, Some(1)));
    let s = it.next().unwrap();
    assert_eq!((s.verb, s.points), (PathVerb::LineTo, &[(6, 6)][..]));
    assert!(it.next().is_none());
    assert!(it.next().is_none());
    assert_eq!(it.size_hint(), (0, Some(0)));
}

#[test]
fn clear_and_default() {
    let mut p: Path<u8> = Path::default();
    assert!(p.is_empty());
    p.move_to(1);
    p.line_to(2);
    assert_eq!(p.verbs(), &[PathVerb::MoveTo, PathVerb::LineTo]);
    assert_eq!(p.points(), &[1, 2]);
    p.clear();
    assert!(p.is_empty());
    assert_eq!(p.point_count(), 0);
}

fn flat(verbs: &[FlattenVerb], points: &[u32]) -> FlattenedPath<u32> {
    let mut f = FlattenedPath::new();
    f.verbs.extend_from_slice(verbs);
    f.points.extend_from_slice(points);
    f
}

#[test]
fn flattened_path_basics() {
    let mut f: FlattenedPath<u32> = FlattenedPath::with_capacity(8);
    assert!(f.is_empty());
    f.verbs.push(FlattenVerb::MoveTo);
    f.points.push(1);
    assert!(!f.is_empty());
    f.clear();
    assert!(f.is_empty() && f.points.is_empty());
    assert!(FlattenedPath::<u32>::default().is_empty());
}

#[test]
fn flattened_back_to_path() {
    let f = flat(&[MoveTo, LineTo, LineTo, Close, MoveTo, LineTo], &[1, 2, 3, 4, 5, 9]);
    let p = flattened_to_path(&f);
    assert_eq!(
        p.verbs(),
        &[
            PathVerb::MoveTo,
            PathVerb::LineTo,
            PathVerb::LineTo,
            PathVerb::Close,
            PathVerb::MoveTo,
            PathVerb::LineTo
        ]
    );
    assert_eq!(p.points(), &[1, 2, 3, 4, 5]);
}

#[test]
fn subpaths_split_at_moves() {
    let f = flat(&[MoveTo, LineTo, LineTo, Close, MoveTo, LineTo, MoveTo], &[1, 2, 3, 4, 5, 6]);
    let subs = extract_subpaths(&f);
    let view: Vec<(Vec<u32>, bool)> = subs.iter().map(|s| (s.points.clone(), s.closed)).collect();
    assert_eq!(view, vec![(vec![1, 2, 3], true), (vec![4, 5], false), (vec![6], false)]);
    // A line before any move starts a subpath of its own.
    let f = flat(&[LineTo, Close, LineTo], &[7, 8]);
    let subs = extract_subpaths(&f);
    assert_eq!(subs.len(), 1);
    assert_eq!((subs[0].points.clone(), subs[0].closed), (vec![7, 8], true));
    assert!(extract_subpaths(&flat(&[Close], &[])).is_empty());
}

#[test]
fn polygons_are_closed_subpaths() {
    let mut out: FlattenedPath<u32> = FlattenedPath::new();
    add_polygon_to_flattened(&[1, 2], &mut out);
    assert!(out.is_empty());
    add_polygon_to_flattened(&[1, 2, 3, 4], &mut out);
    assert_eq!(out.points, vec![1, 2, 3, 4]);
    assert_eq!(out.verbs, vec![MoveTo, LineTo, LineTo, LineTo, Close]);
}

#[test]
fn join_outline_walks_the_right_side_back() {
    assert_eq!(join_outline(&[1, 2, 3], &[], &[7, 8, 9], &[]), vec![1, 2, 3, 9, 8, 7]);
    assert_eq!(
        join_outline(&[1, 2], &[20, 21], &[7, 8], &[30, 31]),
        vec![1, 2, 20, 21, 8, 7, 30, 31]
    );
    assert_eq!(join_outline::<i32>(&[], &[], &[], &[]), Vec::<i32>::new());
}

#[test]
fn offset_normal_indices_of_closed_and_open_subpaths() {
    // Closed, four points: four normals; before point i is normal i - 1, after it i + 1 (wrapping).
    assert_eq!(offset_normal_indices(0, 4, true), (3, 1));
    assert_eq!(offset_normal_indices(2, 4, true), (1, 3));
    assert_eq!(offset_normal_indices(3, 4, true), (2, 0));
    // Open, four points: three normals; before point i is normal i - 1, after it normal i.
    assert_eq!(offset_normal_indices(0, 4, false), (0, 0));
    assert_eq!(offset_normal_indices(1, 4, false), (0, 1));
    assert_eq!(offset_normal_indices(2, 4, false), (1, 2));
    assert_eq!(offset_normal_indices(3, 4, false), (2, 0));
    // Open, two points: one normal.
    assert_eq!(offset_normal_indices(1, 2, false), (0, 0));
}
