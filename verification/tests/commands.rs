use sorot::commands::{Path, PathCommand};

#[test]
fn commands_are_kept_in_order() {
    let mut p: Path<(f32, f32)> = Path::new();
    assert!(!p.is_closed());
    p.move_to((0.0, 0.0)).line_to((1.0, 0.0)).curve_to((2.0, 0.0), (2.0, 1.0), (1.0, 1.0));
    assert!(!p.is_closed());
    p.close();
    assert!(p.is_closed());
    let c = p.commands();
    assert_eq!(c.len(), 4);
    assert!(matches!(c[0], PathCommand::MoveTo((x, y)) if x == 0.0 && y == 0.0));
    assert!(matches!(c[1], PathCommand::LineTo((x, _)) if x == 1.0));
    assert!(matches!(c[2], PathCommand::CurveTo(_, _, (x, y)) if x == 1.0 && y == 1.0));
    assert!(matches!(c[3], PathCommand::Close));
}

#[test]
fn default_path_is_empty_and_open() {
    let p: Path<u8> = Path::default();
    assert!(p.commands().is_empty());
    assert!(!p.is_closed());
}
