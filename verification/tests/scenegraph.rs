use sorot::scenegraph::{SceneGraph, NODE_NULL};

#[derive(Debug, Clone, Copy, PartialEq)]
struct Vec2 {
    x: f32,
    y: f32,
}

#[derive(Debug, Clone, Copy, PartialEq)]
struct Rect {
    min: Vec2,
    max: Vec2,
}

impl Rect {
    fn new(min: Vec2, max: Vec2) -> Self {
        Self { min, max }
    }
}

#[derive(Debug, Clone, Copy, PartialEq)]
enum NodeKind {
    Rect { rect: Rect },
    Group { opacity: f32 },
}

/// A stand-in transform: a translation, identity by default.
#[derive(Debug, Clone, Copy, PartialEq, Default)]
struct Matrix {
    e: f32,
    f: f32,
}

#[derive(Debug, Clone, PartialEq)]
struct Paint {
    rgba: [f32; 4],
}

impl Paint {
    fn fill(rgba: [f32; 4]) -> Self {
        Self { rgba }
    }
}

type Graph = SceneGraph<NodeKind, Matrix, Paint, ()>;

const RED: [f32; 4] = [1.0, 0.0, 0.0, 1.0];
const BLACK: [f32; 4] = [0.0, 0.0, 0.0, 1.0];

#[test]
fn test_add_node() {
    let mut g = Graph::new();
    let paint = g.add_paint(Paint::fill(RED));
    let rect = g.add_node(
        NodeKind::Rect {
            rect: Rect::new(Vec2 { x: 0.0, y: 0.0 }, Vec2 { x: 100.0, y: 100.0 }),
        },
        paint,
    );
    assert_eq!(rect, 0);
    assert_eq!(g.nodes.len(), 1);
}

#[test]
fn test_hierarchy() {
    let mut g = Graph::new();
    let p = g.add_paint(Paint::fill(BLACK));
    let parent = g.add_node(NodeKind::Group { opacity: 1.0 }, p);
    let child = g.add_node(
        NodeKind::Rect { rect: Rect::new(Vec2 { x: 0.0, y: 0.0 }, Vec2 { x: 50.0, y: 50.0 }) },
        p,
    );
    g.add_child(parent, child);
    assert_eq!(g.nodes[parent as usize].first_child, child);
    assert_eq!(g.nodes[child as usize].parent, parent);
}

#[test]
fn children_are_prepended() {
    let mut g = Graph::default();
    let p = g.add_paint(Paint::fill(BLACK));
    let root = g.add_node(NodeKind::Group { opacity: 0.5 }, p);
    let a = g.add_node(NodeKind::Group { opacity: 1.0 }, p);
    let b = g.add_node(NodeKind::Group { opacity: 1.0 }, p);
    assert_eq!(g.nodes[a as usize].parent, NODE_NULL);
    g.add_child(root, a);
    g.add_child(root, b);
    assert_eq!(g.nodes[root as usize].first_child, b);
    assert_eq!(g.nodes[b as usize].next_sibling, a);
    assert_eq!(g.nodes[a as usize].next_sibling, NODE_NULL);
    assert_eq!(g.paint_order, vec![root, a, b]);
    assert!(g.nodes.iter().all(|n| n.visible && n.transform == Matrix::default()));
}

#[test]
fn paints_paths_and_transforms() {
    let mut g: SceneGraph<NodeKind, Matrix, Paint, &str> = SceneGraph::new();
    assert_eq!(g.add_paint(Paint::fill(RED)), 0);
    assert_eq!(g.add_paint(Paint::fill(BLACK)), 1);
    assert_eq!(g.store_path("first"), 0);
    assert_eq!(g.store_path("second"), 1);
    assert_eq!(g.get_path(1), Some(&"second"));
    assert_eq!(g.get_path(2), None);
    let n = g.add_node(NodeKind::Group { opacity: 1.0 }, 1);
    g.set_transform(n, Matrix { e: 3.0, f: 4.0 });
    assert_eq!(g.nodes[0].transform, Matrix { e: 3.0, f: 4.0 });
    assert_eq!(g.nodes[0].paint_id, 1);
}

/// What the graph keeps of a stored path: its verbs and points.
#[derive(Debug, Clone, PartialEq)]
struct StoredPath {
    verbs: Vec<sorot::path::PathVerb>,
    points: Vec<Vec2>,
}

fn circle(center: Vec2, r: f32) -> sorot::path::Path<Vec2> {
    let k = 0.5522847498_f32 * r;
    let p = |x: f32, y: f32| Vec2 { x: center.x + x, y: center.y + y };
    let mut path = sorot::path::Path::new();
    path.move_to(p(r, 0.0));
    path.cubic_to(p(r, k), p(k, r), p(0.0, r));
    path.cubic_to(p(-k, r), p(-r, k), p(-r, 0.0));
    path.cubic_to(p(-r, -k), p(-k, -r), p(0.0, -r));
    path.cubic_to(p(k, -r), p(r, -k), p(r, 0.0));
    path.close();
    path
}

#[test]
fn test_store_path() {
    let mut g: SceneGraph<NodeKind, Matrix, Paint, StoredPath> = SceneGraph::new();
    let p = circle(Vec2 { x: 50.0, y: 50.0 }, 30.0);
    let id = g.store_path(StoredPath { verbs: p.verbs().to_vec(), points: p.points().to_vec() });
    let stored = g.get_path(id).unwrap();
    assert_eq!(stored.verbs.len(), p.verb_count());
    assert!(g.get_path(id + 1).is_none());
}

#[derive(Debug, Clone, Copy, PartialEq, Default)]
struct CanvasPaint {
    rgba: [u8; 4],
}

type Canvas = sorot::canvas::Canvas<NodeKind, Matrix, CanvasPaint, ()>;

fn translate(m: Matrix, x: f32, y: f32) -> Matrix {
    Matrix { e: m.e + x, f: m.f + y }
}

#[test]
fn test_draw_rect() {
    let mut c = Canvas::new();
    c.set_paint(CanvasPaint { rgba: [255, 0, 0, 255] });
    c.draw(NodeKind::Rect { rect: Rect::new(Vec2 { x: 0.0, y: 0.0 }, Vec2 { x: 100.0, y: 100.0 }) });
    assert_eq!(c.graph().paint_order.len(), 1);
}

#[test]
fn test_save_restore_transform() {
    let mut c = Canvas::new();
    c.set_paint(CanvasPaint { rgba: [255, 0, 0, 255] });
    c.draw(NodeKind::Rect { rect: Rect::new(Vec2 { x: 0.0, y: 0.0 }, Vec2 { x: 100.0, y: 100.0 }) });

    c.save();
    c.set_transform(translate(c.transform(), 50.0, 0.0));
    c.set_paint(CanvasPaint { rgba: [0, 0, 255, 255] });
    c.draw(NodeKind::Rect { rect: Rect::new(Vec2 { x: 0.0, y: 0.0 }, Vec2 { x: 100.0, y: 100.0 }) });
    c.restore();

    c.draw(NodeKind::Rect { rect: Rect::new(Vec2 { x: 200.0, y: 0.0 }, Vec2 { x: 300.0, y: 100.0 }) });
    let g = c.graph();
    assert_eq!(g.paint_order.len(), 3);
    assert_eq!(g.nodes[1].transform, Matrix { e: 50.0, f: 0.0 });
    assert_eq!(g.nodes[2].transform, Matrix::default());
    assert_eq!(g.paints[2], CanvasPaint { rgba: [255, 0, 0, 255] });
}
