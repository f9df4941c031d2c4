//! Ring assembly from command sequences.

use papariki::{Command, PixelPoint, Polyline, Ring, RingAssembler};

fn p(x: i32, y: i32) -> PixelPoint {
    PixelPoint { x, y }
}

#[test]
fn move_then_close_without_line_yields_no_ring() {
    // With the threshold at one point, a MoveTo immediately followed by
    // ClosePath leaves only a one-point buffer, which is dropped.
    let line = Polyline::from_geometry(&[9, 0, 0, 15]).unwrap();
    assert_eq!(line.rings.len(), 0);
}

#[test]
fn single_segment_forms_one_ring() {
    let line = Polyline::from_geometry(&[9, 0, 0, 10, 10, 0]).unwrap();
    assert_eq!(line.rings.len(), 1);
    assert_eq!(line.rings[0].points, vec![p(0, 0), p(5, 0)]);
}

#[test]
fn move_to_splits_rings() {
    // Two separate two-point lines: the second MoveTo finalizes the first.
    let line = Polyline::from_geometry(&[9, 0, 0, 10, 10, 0, 9, 2, 2, 10, 2, 0]).unwrap();
    assert_eq!(line.rings.len(), 2);
    assert_eq!(line.rings[0].points, vec![p(0, 0), p(5, 0)]);
    assert_eq!(line.rings[1].points, vec![p(6, 1), p(7, 1)]);
}

#[test]
fn close_path_resets_the_buffer() {
    // A closed triangle, then a dangling MoveTo: only the triangle stays.
    let line = Polyline::from_geometry(&[9, 0, 0, 18, 2, 0, 0, 2, 15, 9, 1, 1]).unwrap();
    assert_eq!(line.rings.len(), 1);
    assert_eq!(line.rings[0].points, vec![p(0, 0), p(1, 0), p(1, 1)]);
}

#[test]
fn malformed_feature_is_an_error() {
    assert!(Polyline::from_geometry(&[9, 0, 0, 11]).is_err());
}

#[test]
fn assembler_respects_configured_threshold() {
    // With the threshold raised to two points, a two-point line is dropped.
    let mut assembler = RingAssembler::new(2);
    assembler.push_command(Command::MoveTo(0, 0));
    assembler.push_command(Command::LineTo(5, 0));
    assert_eq!(assembler.finish().len(), 0);

    let mut assembler = RingAssembler::new(2);
    assembler.push_command(Command::MoveTo(0, 0));
    assembler.push_command(Command::LineTo(5, 0));
    assembler.push_command(Command::LineTo(5, 5));
    let rings = assembler.finish();
    assert_eq!(rings.len(), 1);
    assert_eq!(rings[0].points, vec![p(0, 0), p(5, 0), p(5, 5)]);
}

#[test]
fn ring_close_leaves_points_unchanged() {
    let mut ring = Ring { points: vec![p(1, 2), p(3, 4)] };
    ring.close();
    assert_eq!(ring.points, vec![p(1, 2), p(3, 4)]);
}
