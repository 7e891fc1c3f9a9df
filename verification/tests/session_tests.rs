use whiteboard::color::Color;
use whiteboard::geometry::{IntRect, Point, UPoint};
use whiteboard::pixels::{Pixels, Points};
use whiteboard::session::{EventOutcome, InputEvent, Key, Session};
use whiteboard::stroke::{mouse_movement, ToolMode};
use whiteboard::whiteboard::{Change, Whiteboard};

const BG: Color = Color { r: 80, g: 80, b: 80, a: 255 };
const WHITE: Color = Color { r: 255, g: 255, b: 255, a: 255 };

fn board(w: i32, h: i32) -> Whiteboard {
    Whiteboard::new(IntRect { x1: 0, y1: 0, x2: w, y2: h }, BG)
}

fn color_at(wb: &Whiteboard, x: u32, y: u32) -> Option<Color> {
    wb.get_color_at_point(&UPoint::new(x, y))
}

fn send(s: &mut Session, tex: &mut Vec<u8>, e: InputEvent) -> EventOutcome {
    assert!(s.can_handle(&e));
    s.handle_event(&e, tex.as_mut_slice())
}

fn stroke(s: &mut Session, tex: &mut Vec<u8>, from: (i32, i32), to: (i32, i32)) {
    send(s, tex, InputEvent::MouseButtonDown);
    send(s, tex, InputEvent::MouseMotion(from.0, from.1));
    send(s, tex, InputEvent::MouseMotion(to.0, to.1));
    send(s, tex, InputEvent::MouseButtonUp);
}

fn none() -> EventOutcome {
    EventOutcome { quit: false, needs_draw: false, canvas_moved: false, resized: false }
}

#[test]
fn new_whiteboard_is_filled_with_background() {
    let wb = board(3, 2);
    assert_eq!(wb.data.data.len(), 24);
    for i in 0..6 {
        assert_eq!(&wb.data.data[i * 4..i * 4 + 4], &[80, 80, 80, 255]);
    }
    assert_eq!(wb.changes.len(), 0);
    assert_eq!(wb.changes_index, 0);
    assert_eq!((wb.width(), wb.height()), (3, 2));
    assert_eq!((wb.x1(), wb.y1(), wb.x2(), wb.y2()), (0, 0, 3, 2));
}

#[test]
fn pencil_stroke_draws_only_on_release() {
    let mut s = Session::new(board(4, 3));
    let mut tex = s.whiteboard.data.data.clone();
    assert_eq!(send(&mut s, &mut tex, InputEvent::MouseButtonDown), none());
    send(&mut s, &mut tex, InputEvent::MouseMotion(0, 1));
    let out = send(&mut s, &mut tex, InputEvent::MouseMotion(2, 1));
    assert!(out.needs_draw);
    // the texture shows the stroke at once, the canvas not yet
    assert_eq!(&tex[16..20], &[255, 255, 255, 255]);
    assert_eq!(color_at(&s.whiteboard, 1, 1), Some(BG));
    send(&mut s, &mut tex, InputEvent::MouseButtonUp);
    for x in 0..3 {
        assert_eq!(color_at(&s.whiteboard, x, 1), Some(WHITE));
    }
    assert_eq!(color_at(&s.whiteboard, 3, 1), Some(BG));
    assert_eq!(s.whiteboard.changes.len(), 1);
    assert_eq!(s.whiteboard.changes_index, 1);
    assert!(s.change.is_none());
    assert!(s.point2.is_none());
}

#[test]
fn undo_and_redo_a_pencil_stroke() {
    let mut s = Session::new(board(4, 3));
    let mut tex = s.whiteboard.data.data.clone();
    let before = s.whiteboard.data.data.clone();
    stroke(&mut s, &mut tex, (0, 0), (3, 2));
    let after = s.whiteboard.data.data.clone();
    assert_ne!(before, after);
    send(&mut s, &mut tex, InputEvent::KeyDown(Key::U));
    assert_eq!(s.whiteboard.data.data, before);
    assert_eq!(tex, before);
    assert_eq!(s.whiteboard.changes_index, 0);
    // undo with nothing in effect does nothing
    send(&mut s, &mut tex, InputEvent::KeyDown(Key::U));
    assert_eq!(s.whiteboard.data.data, before);
    send(&mut s, &mut tex, InputEvent::KeyDown(Key::R));
    assert_eq!(s.whiteboard.data.data, after);
    assert_eq!(s.whiteboard.changes_index, 1);
    // redo with nothing left to redo does nothing
    send(&mut s, &mut tex, InputEvent::KeyDown(Key::R));
    assert_eq!(s.whiteboard.data.data, after);
}

#[test]
fn eraser_stroke_and_its_undo() {
    let mut s = Session::new(board(4, 3));
    let mut tex = s.whiteboard.data.data.clone();
    let before = s.whiteboard.data.data.clone();
    send(&mut s, &mut tex, InputEvent::KeyDown(Key::E));
    assert_eq!(s.tool_mode, ToolMode::Eraser);
    stroke(&mut s, &mut tex, (1, 0), (1, 2));
    for y in 0..3 {
        assert_eq!(color_at(&s.whiteboard, 1, y), Some(Color::transparent()));
    }
    assert_eq!(color_at(&s.whiteboard, 0, 0), Some(BG));
    send(&mut s, &mut tex, InputEvent::KeyDown(Key::U));
    assert_eq!(s.whiteboard.data.data, before);
    send(&mut s, &mut tex, InputEvent::KeyDown(Key::R));
    assert_eq!(color_at(&s.whiteboard, 1, 2), Some(Color::transparent()));
}

#[test]
fn pencil_commit_after_undo_drops_undone_strokes() {
    let mut s = Session::new(board(5, 5));
    let mut tex = s.whiteboard.data.data.clone();
    stroke(&mut s, &mut tex, (0, 0), (4, 0));
    stroke(&mut s, &mut tex, (0, 1), (4, 1));
    send(&mut s, &mut tex, InputEvent::KeyDown(Key::U));
    assert_eq!(s.whiteboard.changes_index, 1);
    stroke(&mut s, &mut tex, (0, 2), (4, 2));
    assert_eq!(s.whiteboard.changes.len(), 2);
    assert_eq!(s.whiteboard.changes_index, 2);
    send(&mut s, &mut tex, InputEvent::KeyDown(Key::U));
    assert_eq!(color_at(&s.whiteboard, 2, 2), Some(BG));
    assert_eq!(color_at(&s.whiteboard, 2, 0), Some(WHITE));
}

#[test]
fn eraser_commit_after_undo_drops_undone_strokes() {
    let mut s = Session::new(board(5, 5));
    let mut tex = s.whiteboard.data.data.clone();
    stroke(&mut s, &mut tex, (0, 0), (4, 0));
    let before = s.whiteboard.data.data.clone();
    stroke(&mut s, &mut tex, (0, 1), (4, 1));
    send(&mut s, &mut tex, InputEvent::KeyDown(Key::U));
    assert_eq!(s.whiteboard.data.data, before);
    send(&mut s, &mut tex, InputEvent::KeyDown(Key::E));
    stroke(&mut s, &mut tex, (2, 0), (2, 4));
    assert_eq!(s.whiteboard.changes.len(), 2);
    assert_eq!(s.whiteboard.changes_index, 2);
    assert!(matches!(s.whiteboard.changes[1], Change::Eraser { .. }));
    // the next undo takes back the eraser stroke just committed
    send(&mut s, &mut tex, InputEvent::KeyDown(Key::U));
    assert_eq!(s.whiteboard.data.data, before);
}

#[test]
fn space_moves_the_canvas_and_returns_to_the_tool() {
    let mut s = Session::new(board(4, 4));
    let mut tex = s.whiteboard.data.data.clone();
    send(&mut s, &mut tex, InputEvent::KeyDown(Key::E));
    send(&mut s, &mut tex, InputEvent::KeyDown(Key::Space));
    assert_eq!(s.tool_mode, ToolMode::MovingCanvas);
    assert_eq!(s.old_tool, ToolMode::Eraser);
    send(&mut s, &mut tex, InputEvent::KeyDown(Key::Space));
    assert_eq!(s.old_tool, ToolMode::Eraser);
    send(&mut s, &mut tex, InputEvent::MouseButtonDown);
    assert!(s.change.is_none());
    send(&mut s, &mut tex, InputEvent::MouseMotion(10, 10));
    let out = send(&mut s, &mut tex, InputEvent::MouseMotion(13, 8));
    assert!(out.canvas_moved && !out.needs_draw);
    assert_eq!(s.whiteboard.data.canvas_bounds, IntRect { x1: 3, y1: -2, x2: 7, y2: 2 });
    send(&mut s, &mut tex, InputEvent::MouseButtonUp);
    send(&mut s, &mut tex, InputEvent::KeyUp(Key::Space));
    assert_eq!(s.tool_mode, ToolMode::Eraser);
    let out = send(&mut s, &mut tex, InputEvent::WindowResized);
    assert!(out.resized);
    assert_eq!(s.whiteboard.data.canvas_bounds, IntRect { x1: 0, y1: 0, x2: 4, y2: 4 });
}

#[test]
fn escape_and_quit_stop_the_session() {
    let mut s = Session::new(board(2, 2));
    let mut tex = s.whiteboard.data.data.clone();
    assert!(send(&mut s, &mut tex, InputEvent::KeyDown(Key::Escape)).quit);
    assert!(send(&mut s, &mut tex, InputEvent::Quit).quit);
    assert_eq!(send(&mut s, &mut tex, InputEvent::KeyDown(Key::Other)), none());
    assert_eq!(send(&mut s, &mut tex, InputEvent::Other), none());
    send(&mut s, &mut tex, InputEvent::KeyDown(Key::B));
    assert_eq!(s.tool_mode, ToolMode::Pencil);
}

#[test]
fn moving_past_i32_cannot_be_handled() {
    let wb = Whiteboard::new(IntRect { x1: i32::MAX - 10, y1: 0, x2: i32::MAX - 5, y2: 1 }, BG);
    let mut s = Session::new(wb);
    let mut tex = s.whiteboard.data.data.clone();
    send(&mut s, &mut tex, InputEvent::KeyDown(Key::Space));
    send(&mut s, &mut tex, InputEvent::MouseButtonDown);
    send(&mut s, &mut tex, InputEvent::MouseMotion(0, 0));
    assert!(!s.can_handle(&InputEvent::MouseMotion(100, 0)));
    assert!(s.can_handle(&InputEvent::MouseMotion(2, 0)));
}

#[test]
fn mouse_movement_records_only_changed_colours() {
    let mut wb = board(4, 1);
    wb.draw_pixel(&UPoint::new(1, 0), &WHITE);
    let mut tex = wb.data.data.clone();
    let mut change = Some(Change::Pencil { old: Pixels::new(), new: Pixels::new() });
    mouse_movement(
        &mut wb,
        Point::new(0, 0),
        Point::new(3, 0),
        &ToolMode::Pencil,
        WHITE,
        tex.as_mut_slice(),
        &mut change,
    );
    match &change {
        Some(Change::Pencil { old, new }) => {
            let mut o = old.to_vec();
            o.sort_by_key(|p| p.point.x);
            assert_eq!(o.iter().map(|p| p.point.x).collect::<Vec<_>>(), vec![0, 2, 3]);
            assert!(o.iter().all(|p| p.color == BG));
            assert_eq!(new.to_vec().len(), 3);
            assert!(new.to_vec().iter().all(|p| p.color == WHITE));
        }
        _ => panic!("the stroke changed kind"),
    }
    for x in 0..4 {
        assert_eq!(&tex[x * 4..x * 4 + 4], &[255, 255, 255, 255]);
    }
    // the canvas is left alone
    assert_eq!(color_at(&wb, 0, 0), Some(BG));
}

#[test]
fn mouse_movement_with_eraser_records_points_and_colours() {
    let mut wb = board(3, 1);
    wb.erase_point(&UPoint::new(0, 0));
    let mut tex = wb.data.data.clone();
    let mut change = Some(Change::Eraser { new: Points::new(), old: Pixels::new() });
    mouse_movement(
        &mut wb,
        Point::new(0, 0),
        Point::new(2, 0),
        &ToolMode::Eraser,
        WHITE,
        tex.as_mut_slice(),
        &mut change,
    );
    match &change {
        Some(Change::Eraser { new, old }) => {
            assert_eq!(new.to_vec().len(), 3);
            let mut o = old.to_vec();
            o.sort_by_key(|p| p.point.x);
            assert_eq!(o.iter().map(|p| p.point.x).collect::<Vec<_>>(), vec![1, 2]);
        }
        _ => panic!("the stroke changed kind"),
    }
    assert_eq!(tex, vec![0u8; 12]);
}

#[test]
fn mouse_movement_leaves_a_stroke_of_the_other_tool() {
    let mut wb = board(3, 1);
    let mut tex = wb.data.data.clone();
    let mut change = Some(Change::Eraser { new: Points::new(), old: Pixels::new() });
    mouse_movement(
        &mut wb,
        Point::new(0, 0),
        Point::new(2, 0),
        &ToolMode::Pencil,
        WHITE,
        tex.as_mut_slice(),
        &mut change,
    );
    match &change {
        Some(Change::Eraser { new, old }) => {
            assert_eq!(new.to_vec().len(), 0);
            assert_eq!(old.to_vec().len(), 0);
        }
        _ => panic!("the stroke changed kind"),
    }
}

#[test]
fn undo_after_a_stroke_with_other_events_in_between() {
    let mut s = Session::new(board(6, 4));
    let mut tex = s.whiteboard.data.data.clone();
    stroke(&mut s, &mut tex, (0, 3), (5, 3));
    let before = s.whiteboard.data.data.clone();
    send(&mut s, &mut tex, InputEvent::MouseButtonDown);
    send(&mut s, &mut tex, InputEvent::MouseMotion(0, 0));
    send(&mut s, &mut tex, InputEvent::MouseMotion(5, 3));
    // switching the tool, resizing and pressing other keys mid-stroke
    send(&mut s, &mut tex, InputEvent::KeyDown(Key::E));
    send(&mut s, &mut tex, InputEvent::WindowResized);
    send(&mut s, &mut tex, InputEvent::KeyDown(Key::Other));
    send(&mut s, &mut tex, InputEvent::MouseMotion(2, 0));
    send(&mut s, &mut tex, InputEvent::KeyDown(Key::B));
    send(&mut s, &mut tex, InputEvent::MouseMotion(0, 2));
    send(&mut s, &mut tex, InputEvent::MouseButtonUp);
    let after = s.whiteboard.data.data.clone();
    assert_ne!(before, after);
    send(&mut s, &mut tex, InputEvent::KeyDown(Key::U));
    assert_eq!(s.whiteboard.data.data, before);
    assert_eq!(s.whiteboard.changes_index, 1);
    send(&mut s, &mut tex, InputEvent::KeyDown(Key::R));
    assert_eq!(s.whiteboard.data.data, after);
    assert_eq!(s.whiteboard.changes_index, 2);
}

#[test]
fn eraser_undo_after_stroke_when_history_is_all_in_effect() {
    let mut s = Session::new(board(5, 3));
    let mut tex = s.whiteboard.data.data.clone();
    stroke(&mut s, &mut tex, (0, 1), (4, 1));
    let before = s.whiteboard.data.data.clone();
    send(&mut s, &mut tex, InputEvent::KeyDown(Key::E));
    stroke(&mut s, &mut tex, (2, 0), (2, 2));
    let after = s.whiteboard.data.data.clone();
    assert_eq!(color_at(&s.whiteboard, 2, 1), Some(Color::transparent()));
    send(&mut s, &mut tex, InputEvent::KeyDown(Key::U));
    assert_eq!(s.whiteboard.data.data, before);
    send(&mut s, &mut tex, InputEvent::KeyDown(Key::R));
    assert_eq!(s.whiteboard.data.data, after);
}

#[test]
fn only_release_undo_and_redo_change_the_canvas() {
    let mut s = Session::new(board(5, 4));
    let mut tex = s.whiteboard.data.data.clone();
    let before = s.whiteboard.data.data.clone();
    let events = [
        InputEvent::MouseButtonDown,
        InputEvent::MouseMotion(0, 0),
        InputEvent::MouseMotion(4, 3),
        InputEvent::KeyDown(Key::E),
        InputEvent::MouseMotion(1, 3),
        InputEvent::KeyDown(Key::Space),
        InputEvent::MouseMotion(2, 2),
        InputEvent::KeyUp(Key::Space),
        InputEvent::WindowResized,
        InputEvent::KeyUp(Key::E),
        InputEvent::Other,
    ];
    for e in events {
        send(&mut s, &mut tex, e);
        assert_eq!(s.whiteboard.data.data, before);
        assert_eq!(s.whiteboard.changes.len(), 0);
    }
    assert_ne!(tex, before);
    send(&mut s, &mut tex, InputEvent::MouseButtonUp);
    assert_ne!(s.whiteboard.data.data, before);
}
