use sorot::canvas::{Canvas, DrawState};
use sorot::scenegraph::NODE_NULL;

#[derive(Debug, Clone, Copy, PartialEq, Default)]
struct Paint(u8);

#[derive(Debug, Clone, Copy, PartialEq)]
enum Kind {
    Rect(i32),
    Path(u32),
    Group,
}

type TestCanvas = Canvas<Kind, i32, Paint, &'static str>;

#[test]
fn draw_records_paint_and_transform() {
    let mut c = TestCanvas::new();
    c.set_paint(Paint(7));
    c.set_transform(5);
    let id = c.draw(Kind::Rect(1));
    assert_eq!(id, 0);
    let g = c.graph();
    assert_eq!(g.paints, vec![Paint(7)]);
    assert_eq!(g.nodes.len(), 1);
    assert_eq!(g.nodes[0].kind, Kind::Rect(1));
    assert_eq!(g.nodes[0].transform, 5);
    assert_eq!(g.nodes[0].paint_id, 0);
    assert_eq!(g.nodes[0].parent, NODE_NULL);
    assert_eq!(g.paint_order, vec![0]);
}

#[test]
fn restore_brings_back_the_saved_state() {
    let mut c = TestCanvas::new();
    c.set_paint(Paint(1));
    c.draw(Kind::Rect(0));
    c.save();
    c.set_transform(50);
    c.set_paint(Paint(2));
    c.draw(Kind::Rect(1));
    c.restore();
    assert_eq!(c.transform(), 0);
    assert_eq!(c.paint(), Paint(1));
    c.draw(Kind::Rect(2));
    let g = c.graph();
    assert_eq!(g.nodes.len(), 3);
    assert_eq!(g.nodes[1].transform, 50);
    assert_eq!(g.nodes[2].transform, 0);
    assert_eq!(g.paints, vec![Paint(1), Paint(2), Paint(1)]);
}

#[test]
fn restore_without_save_changes_nothing() {
    let mut c = TestCanvas::new();
    c.set_transform(3);
    c.restore();
    assert_eq!(c.transform(), 3);
}

#[test]
fn nested_saves_restore_in_reverse() {
    let mut c = TestCanvas::new();
    c.set_transform(1);
    c.save();
    c.set_transform(2);
    c.save();
    c.set_transform(3);
    c.restore();
    assert_eq!(c.transform(), 2);
    c.restore();
    assert_eq!(c.transform(), 1);
}

#[test]
fn draw_path_stores_the_path() {
    let mut c = TestCanvas::default();
    c.set_transform(9);
    let id = c.draw_path("outline", |p| Kind::Path(p));
    let g = c.graph();
    assert_eq!(id, 0);
    assert_eq!(g.paths, vec!["outline"]);
    assert_eq!(g.nodes[0].kind, Kind::Path(0));
    assert_eq!(g.nodes[0].transform, 9);
}

#[test]
fn groups_keep_the_default_transform() {
    let mut c = TestCanvas::new();
    c.set_transform(4);
    let id = c.begin_group(Kind::Group);
    c.end_group();
    assert_eq!(id, 0);
    assert_eq!(c.graph().nodes[0].transform, 0);
    assert_eq!(c.graph().nodes[0].kind, Kind::Group);
    let s = DrawState { transform: 1, paint: Paint(0) };
    assert_eq!(s.transform, 1);
}
