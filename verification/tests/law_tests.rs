use whiteboard::color::Color;
use whiteboard::geometry::{IntRect, Point, UPoint};
use whiteboard::line::make_line;
use whiteboard::pixels::{Pixels, Points};
use whiteboard::stroke::{mouse_movement, ToolMode};
use whiteboard::whiteboard::{Change, Whiteboard};

const BG: Color = Color { r: 10, g: 20, b: 30, a: 255 };

fn line(x1: i32, y1: i32, x2: i32, y2: i32) -> Vec<(i64, i64)> {
    let mut v = Vec::new();
    make_line(&mut v, Point::new(x1, y1), Point::new(x2, y2));
    v.iter().map(|p| (p.x as i32 as i64, p.y as i32 as i64)).collect()
}

const CASES: [(i32, i32, i32, i32); 8] = [
    (0, 0, 7, 3),
    (7, 3, 0, 0),
    (-4, 9, 6, -2),
    (5, 5, 5, -5),
    (-3, 0, 3, 0),
    (2, 2, 9, 9),
    (0, 0, 2, 11),
    (1, 1, 1, 1),
];

#[test]
fn line_starts_at_first_point() {
    for (x1, y1, x2, y2) in CASES {
        assert_eq!(line(x1, y1, x2, y2)[0], (x1 as i64, y1 as i64));
    }
}

#[test]
fn line_moves_one_step_toward_the_end() {
    for (x1, y1, x2, y2) in CASES {
        let pts = line(x1, y1, x2, y2);
        let sx = if x1 < x2 { 1 } else { -1 };
        let sy = if y1 < y2 { 1 } else { -1 };
        for k in 0..pts.len() - 1 {
            let (a, b) = (pts[k], pts[k + 1]);
            assert!(b.0 == a.0 || b.0 == a.0 + sx);
            assert!(b.1 == a.1 || b.1 == a.1 + sy);
            assert_ne!(a, b);
        }
    }
}

#[test]
fn line_stays_in_bounding_box() {
    for (x1, y1, x2, y2) in CASES {
        for (x, y) in line(x1, y1, x2, y2) {
            assert!(x1.min(x2) as i64 <= x && x <= x1.max(x2) as i64);
            assert!(y1.min(y2) as i64 <= y && y <= y1.max(y2) as i64);
        }
    }
}

#[test]
fn line_end_point() {
    for (x1, y1, x2, y2) in CASES {
        assert_eq!(*line(x1, y1, x2, y2).last().unwrap(), (x2 as i64, y2 as i64));
    }
}

fn board() -> Whiteboard {
    let mut wb = Whiteboard::new(IntRect { x1: 0, y1: 0, x2: 6, y2: 5 }, BG);
    // some variety on the canvas
    wb.draw_pixel(&UPoint::new(2, 2), &Color::rgb(1, 2, 3));
    wb.erase_point(&UPoint::new(3, 3));
    wb
}

fn record(wb: &mut Whiteboard, tool: ToolMode, strokes: &[((i32, i32), (i32, i32))]) -> Change {
    let mut change = Some(match tool {
        ToolMode::Eraser => Change::Eraser { new: Points::new(), old: Pixels::new() },
        _ => Change::Pencil { old: Pixels::new(), new: Pixels::new() },
    });
    let mut tex = wb.data.data.clone();
    for &((a, b), (c, d)) in strokes {
        mouse_movement(
            wb,
            Point::new(a, b),
            Point::new(c, d),
            &tool,
            Color::rgb(200, 0, 0),
            tex.as_mut_slice(),
            &mut change,
        );
    }
    change.unwrap()
}

const STROKES: [((i32, i32), (i32, i32)); 3] = [((0, 0), (5, 4)), ((5, 4), (5, 0)), ((5, 0), (0, 2))];

#[test]
fn undo_restores_pencil_stroke() {
    let mut wb = board();
    let before = wb.data.data.clone();
    let c = record(&mut wb, ToolMode::Pencil, &STROKES);
    wb.commit(c);
    assert_ne!(wb.data.data, before);
    let mut tex = wb.data.data.clone();
    wb.undo(tex.as_mut_slice());
    assert_eq!(wb.data.data, before);
}

#[test]
fn undo_restores_eraser_stroke() {
    let mut wb = board();
    let before = wb.data.data.clone();
    let c = record(&mut wb, ToolMode::Eraser, &STROKES);
    wb.commit(c);
    assert_ne!(wb.data.data, before);
    let mut tex = wb.data.data.clone();
    wb.undo(tex.as_mut_slice());
    assert_eq!(wb.data.data, before);
}

#[test]
fn redo_after_undo_pencil_stroke() {
    let mut wb = board();
    let c = record(&mut wb, ToolMode::Pencil, &STROKES);
    wb.commit(c);
    let drawn = wb.data.data.clone();
    let mut tex = drawn.clone();
    wb.undo(tex.as_mut_slice());
    wb.redo(tex.as_mut_slice());
    assert_eq!(wb.data.data, drawn);
    assert_eq!(tex, drawn);
}

#[test]
fn redo_after_undo_eraser_stroke() {
    let mut wb = board();
    let c = record(&mut wb, ToolMode::Eraser, &STROKES);
    wb.commit(c);
    let erased = wb.data.data.clone();
    let mut tex = erased.clone();
    wb.undo(tex.as_mut_slice());
    wb.redo(tex.as_mut_slice());
    assert_eq!(wb.data.data, erased);
}

#[test]
fn commit_places_stroke_for_undo() {
    let mut wb = board();
    let first = record(&mut wb, ToolMode::Pencil, &STROKES[..1]);
    wb.commit(first);
    let second = record(&mut wb, ToolMode::Pencil, &STROKES[1..]);
    wb.commit(second);
    let mut tex = wb.data.data.clone();
    wb.undo(tex.as_mut_slice());
    wb.undo(tex.as_mut_slice());
    assert_eq!(wb.changes_index, 0);
    let third = record(&mut wb, ToolMode::Pencil, &STROKES[2..]);
    wb.commit(third);
    assert_eq!(wb.changes.len(), 1);
    assert_eq!(wb.changes_index, 1);
    let before = board().data.data;
    wb.undo(tex.as_mut_slice());
    assert_eq!(wb.data.data, before);
}
