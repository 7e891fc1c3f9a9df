use whiteboard::color::Color;
use whiteboard::geometry::{get_width, IntRect, Point, Rect, UPoint, COORD_MAX, COORD_MIN};
use whiteboard::line::{line_fits_check, make_line, make_line_in_rect};

fn rect(x1: i32, y1: i32, x2: i32, y2: i32) -> IntRect {
    IntRect { x1, y1, x2, y2 }
}

fn up(x: u32, y: u32) -> UPoint {
    UPoint::new(x, y)
}

#[test]
fn point_new_clamps_coordinates() {
    assert_eq!(Point::new(3, -4), Point { x: 3, y: -4 });
    assert_eq!(Point::new(i32::MAX, i32::MIN), Point { x: COORD_MAX, y: COORD_MIN });
    assert_eq!(COORD_MAX, i32::MAX / 2);
    assert_eq!(COORD_MIN, i32::MIN / 2);
}

#[test]
fn point_inside_excludes_far_edges() {
    let r = rect(0, 0, 10, 5);
    assert!(Point::new(0, 0).is_inside(&r));
    assert!(Point::new(9, 4).is_inside(&r));
    assert!(!Point::new(10, 4).is_inside(&r));
    assert!(!Point::new(9, 5).is_inside(&r));
    assert!(!Point::new(-1, 0).is_inside(&r));
}

#[test]
fn canvas_point_is_never_inside() {
    let r = rect(0, 0, 10, 10);
    assert!(!up(0, 0).is_inside(&r));
    assert!(!up(5, 5).is_inside(&r));
}

#[test]
fn rect_width_height_and_get_width() {
    let r = rect(-3, 2, 7, 12);
    assert_eq!(r.width(), 10);
    assert_eq!(r.height(), 10);
    assert_eq!(get_width(&r), 10);
    // a reversed rectangle wraps around in the unsigned width
    assert_eq!(rect(5, 0, 3, 0).width(), u32::MAX - 1);
}

#[test]
fn rect_shift_moves_all_edges() {
    let mut r = rect(0, 0, 900, 500);
    r.shift(-5, 7);
    assert_eq!(r, rect(-5, 7, 895, 507));
}

#[test]
fn rect_centre_rounds_toward_zero() {
    assert_eq!(rect(0, 0, 901, 501).centre(), (450, 250));
    assert_eq!(rect(10, 10, 13, 14).centre(), (11, 12));
    assert_eq!(rect(0, 0, -3, -5).centre(), (-1, -2));
}

#[test]
fn rect_to_rect_clamps_position_and_size() {
    assert_eq!(rect(1, 2, 11, 22).to_rect(), Rect { x: 1, y: 2, w: 10, h: 20 });
    assert_eq!(rect(4, 4, 4, 4).to_rect(), Rect { x: 4, y: 4, w: 1, h: 1 });
    assert_eq!(Rect::new(i32::MAX, 0, u32::MAX, 3), Rect { x: COORD_MAX, y: 0, w: COORD_MAX as u32, h: 3 });
}

#[test]
fn color_constructors() {
    assert_eq!(Color::rgba(1, 2, 3, 4), Color { r: 1, g: 2, b: 3, a: 4 });
    assert_eq!(Color::rgb(80, 80, 80), Color { r: 80, g: 80, b: 80, a: 255 });
    assert_eq!(Color::transparent(), Color { r: 0, g: 0, b: 0, a: 0 });
}

fn line(x1: i32, y1: i32, x2: i32, y2: i32) -> Vec<UPoint> {
    let mut v = Vec::new();
    make_line(&mut v, Point::new(x1, y1), Point::new(x2, y2));
    v
}

#[test]
fn make_line_horizontal_and_vertical() {
    assert_eq!(line(0, 0, 3, 0), vec![up(0, 0), up(1, 0), up(2, 0), up(3, 0)]);
    assert_eq!(line(2, 5, 2, 2), vec![up(2, 5), up(2, 4), up(2, 3), up(2, 2)]);
    assert_eq!(line(7, 7, 7, 7), vec![up(7, 7)]);
}

#[test]
fn make_line_diagonal_reaches_end() {
    assert_eq!(line(0, 0, 3, 3), vec![up(0, 0), up(1, 1), up(2, 2), up(3, 3)]);
}

#[test]
fn make_line_slanted_reaches_end() {
    assert_eq!(line(0, 0, 1, 2), vec![up(0, 0), up(1, 1), up(1, 2)]);
    assert_eq!(line(0, 0, 2, 1), vec![up(0, 0), up(1, 1), up(2, 1)]);
    assert_eq!(line(0, 0, 3, 1), vec![up(0, 0), up(1, 1), up(2, 1), up(3, 1)]);
    assert_eq!(line(0, 0, 4, 1), vec![up(0, 0), up(1, 1), up(2, 1), up(3, 1), up(4, 1)]);
    assert_eq!(line(5, 5, 1, 3), vec![up(5, 5), up(4, 4), up(3, 3), up(2, 3), up(1, 3)]);
}

#[test]
fn make_line_wraps_negative_coordinates() {
    assert_eq!(
        line(3, -2, -1, 0),
        vec![up(3, u32::MAX - 1), up(2, u32::MAX), up(1, 0), up(0, 0), up(u32::MAX, 0)]
    );
}

#[test]
fn make_line_appends_to_existing_points() {
    let mut v = vec![up(9, 9)];
    make_line(&mut v, Point::new(0, 0), Point::new(1, 0));
    assert_eq!(v, vec![up(9, 9), up(0, 0), up(1, 0)]);
}

#[test]
fn make_line_in_rect_keeps_inside_points_relative() {
    let mut v = Vec::new();
    make_line_in_rect(&mut v, Point::new(8, 12), Point::new(12, 12), &rect(10, 10, 20, 20));
    assert_eq!(v, vec![up(0, 2), up(1, 2), up(2, 2)]);
    let mut w = Vec::new();
    make_line_in_rect(&mut w, Point::new(0, 0), Point::new(3, 3), &rect(1, 1, 3, 3));
    assert_eq!(w, vec![up(0, 0), up(1, 1)]);
    // both ends inside: the second end is kept too
    let mut z = Vec::new();
    make_line_in_rect(&mut z, Point::new(0, 0), Point::new(2, 1), &rect(0, 0, 3, 2));
    assert_eq!(z, vec![up(0, 0), up(1, 1), up(2, 1)]);
}

#[test]
fn line_fits_check_bounds_slanted_spans() {
    assert!(line_fits_check(&Point::new(COORD_MIN, 0), &Point::new(COORD_MAX, 0)));
    assert!(!line_fits_check(&Point::new(COORD_MIN, 0), &Point::new(COORD_MAX, 1)));
    assert!(line_fits_check(&Point::new(0, 0), &Point::new(1000, 3)));
    assert!(!line_fits_check(&Point::new(COORD_MIN, 0), &Point::new(COORD_MAX, 2)));
    assert!(!line_fits_check(&Point::new(0, COORD_MIN), &Point::new(3, COORD_MAX)));
    assert!(line_fits_check(&Point::new(0, 0), &Point::new(1 << 20, (1 << 20) + 5)));
}
