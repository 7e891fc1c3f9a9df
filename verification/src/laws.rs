use vstd::prelude::*;
use crate::color::Color;
use crate::canvas::{point_index, color_at};
use crate::geometry::{IntRect, Point, UPoint, clamp_position};
use crate::pixels::{key_point, point_key, pixel_keys, keys_of, lemma_point_key_inverse};
use crate::painting::{
    paint_map, key_covers, transparent_at, lemma_index_aligned, lemma_paint_map_at,
    lemma_paint_map_elsewhere, lemma_colored_paint_at, keys_on_canvas,
};
use crate::whiteboard::{
    Whiteboard, Change, committed_history, stroke_applied, commit_result, undo_result, redo_result,
    lemma_width_value, lemma_index_on_canvas,
};
use crate::stroke::{
    recorded_against, ToolMode, mouse_movement_result, lemma_points_in_rect_on_canvas,
    lemma_inserted_from_back, pencil_new_pixels, pencil_old_pixels, pencil_changes,
    eraser_old_pixels, eraser_changes,
};
use crate::line::line_points_in_rect;
use crate::session::{Session, InputEvent, Key, EventOutcome, handle_event_result};

verus! {

/// Undoing a stroke recorded against the canvas `d` gives `d` back: drawing
/// back the colours that the stroke replaced takes away all it did. This
/// holds of a pencil stroke on any canvas, and of an eraser stroke on a canvas
/// of whole pixels.
pub proof fn law_undo_restores_stroke(c: Change, d: Seq<u8>, w: int)
    requires
        recorded_against(c, d, w),
        c is Eraser ==> d.len() % 4 == 0,
    ensures
        paint_map(stroke_applied(c, d, w), w, c.old_pixels()) == d,
{
    let o = c.old_pixels();
    let d1 = stroke_applied(c, d, w);
    assert forall|i: int| 0 <= i < d.len() implies paint_map(d1, w, o)[i] == d[i] by {
        if exists|k: u64| o.contains_key(k) && key_covers(k, w, i) {
            let k = choose|k: u64| o.contains_key(k) && key_covers(k, w, i);
            assert(color_at(d, point_index(key_point(k), w)) == Some(o[k]));
        } else {
            match c {
                Change::Pencil { new, .. } => {
                    if exists|k: u64| new@.contains_key(k) && key_covers(k, w, i) {
                        let k = choose|k: u64| new@.contains_key(k) && key_covers(k, w, i);
                        assert(o.dom().contains(k));
                    }
                },
                Change::Eraser { new, .. } => {
                    let m = transparent_at(new@);
                    if exists|k: u64| m.contains_key(k) && key_covers(k, w, i) {
                        let k = choose|k: u64| m.contains_key(k) && key_covers(k, w, i);
                        let idx = point_index(key_point(k), w);
                        assert(new@.contains(k) && !o.contains_key(k));
                        lemma_index_aligned(key_point(k), w);
                        assert(0 <= idx && idx + 3 < d.len()) by (nonlinear_arith)
                            requires
                                idx % 4 == 0,
                                d.len() % 4 == 0,
                                idx <= i < idx + 4,
                                0 <= i < d.len(),
                        ;
                        assert(color_at(d, idx) == Some(Color::spec_transparent()));
                        assert(m[k] == Color::spec_transparent());
                    }
                },
            }
        }
    }
    assert(paint_map(d1, w, o) =~= d);
}

/// Redoing an undone stroke gives back the canvas as the stroke left it,
/// under the same conditions as `law_undo_restores_stroke`.
pub proof fn law_redo_after_undo_stroke(c: Change, d: Seq<u8>, w: int)
    requires
        recorded_against(c, d, w),
        c is Eraser ==> d.len() % 4 == 0,
    ensures
        stroke_applied(c, paint_map(stroke_applied(c, d, w), w, c.old_pixels()), w)
            == stroke_applied(c, d, w),
{
    law_undo_restores_stroke(c, d, w);
}

/// Committing a stroke puts it where the next undo takes it: last among the
/// strokes in effect.
pub proof fn law_commit_places_stroke_for_undo(changes: Seq<Change>, index: int, c: Change)
    requires
        0 <= index <= changes.len(),
    ensures
        committed_history(changes, index, c).len() >= index + 1,
        committed_history(changes, index, c)[index] == c,
{
}


/// A canvas of whole pixels has a length that is a multiple of four.
proof fn lemma_canvas_len(w: int, h: int, n: int)
    requires
        n == w * h * 4,
    ensures
        n % 4 == 0,
{
    assert((w * h * 4) % 4 == 0) by (nonlinear_arith);
}

/// Committing a stroke recorded against the canvas and then undoing gives
/// back the canvas as it was before the commit, and the count of strokes in
/// effect as it was.
pub proof fn law_undo_after_commit(
    wb: Whiteboard,
    c: Change,
    wb1: Whiteboard,
    tex1: Seq<u8>,
    wb2: Whiteboard,
    tex2: Seq<u8>,
)
    requires
        wb.wf(),
        recorded_against(c, wb.data.data@, wb.spec_width()),
        commit_result(wb, c, wb1),
        undo_result(wb1, tex1, wb2, tex2),
    ensures
        wb2.data.data@ == wb.data.data@,
        wb2.changes_index == wb.changes_index,
{
    law_commit_places_stroke_for_undo(wb.changes@, wb.changes_index as int, c);
    assert(wb1.changes@[wb1.changes_index - 1] == c);
    lemma_canvas_len(wb.spec_width(), wb.spec_height(), wb.data.data@.len() as int);
    law_undo_restores_stroke(c, wb.data.data@, wb.spec_width());
}

/// Committing a stroke recorded against the canvas, undoing it and redoing it
/// gives back the canvas as the commit left it, with the stroke in effect
/// again.
pub proof fn law_redo_after_undo(
    wb: Whiteboard,
    c: Change,
    wb1: Whiteboard,
    tex1: Seq<u8>,
    wb2: Whiteboard,
    tex2: Seq<u8>,
    wb3: Whiteboard,
    tex3: Seq<u8>,
)
    requires
        wb.wf(),
        recorded_against(c, wb.data.data@, wb.spec_width()),
        commit_result(wb, c, wb1),
        undo_result(wb1, tex1, wb2, tex2),
        redo_result(wb2, tex2, wb3, tex3),
    ensures
        wb3.data.data@ == wb1.data.data@,
        wb3.changes_index == wb1.changes_index,
{
    law_undo_after_commit(wb, c, wb1, tex1, wb2, tex2);
    law_commit_places_stroke_for_undo(wb.changes@, wb.changes_index as int, c);
    assert(wb2.changes@[wb2.changes_index as int] == c);
}

/// Whether the stroke being drawn in `s`, if any, was recorded against the
/// canvas as it now is.
pub open spec fn pending_stroke_recorded(s: Session) -> bool {
    s.change matches Some(c) ==> recorded_against(
        c,
        s.whiteboard.data.data@,
        s.whiteboard.spec_width(),
    )
}

/// Every event but undo and redo keeps the stroke being drawn recorded
/// against the canvas: a new stroke starts empty, a mouse movement records
/// what it draws over, and nothing else touches the canvas before the stroke
/// is committed.
pub proof fn law_session_keeps_stroke_recorded(
    s: Session,
    event: InputEvent,
    tex: Seq<u8>,
    s2: Session,
    tex2: Seq<u8>,
    out: EventOutcome,
)
    requires
        s.wf(),
        pending_stroke_recorded(s),
        event != InputEvent::KeyDown(Key::U),
        event != InputEvent::KeyDown(Key::R),
        handle_event_result(s, event, tex, s2, tex2, out),
    ensures
        pending_stroke_recorded(s2),
{
    lemma_width_value(s.whiteboard.data.canvas_bounds);
    match event {
        InputEvent::WindowResized => {
            lemma_width_value(s2.whiteboard.data.canvas_bounds);
        },
        _ => {},
    }
}

/// Releasing the mouse button on a stroke recorded against the canvas and
/// then pressing U gives back the canvas as it was before the release.
pub proof fn law_session_undo_after_stroke(
    s0: Session,
    t0: Seq<u8>,
    s1: Session,
    t1: Seq<u8>,
    o1: EventOutcome,
    s2: Session,
    t2: Seq<u8>,
    o2: EventOutcome,
)
    requires
        s0.wf(),
        s0.change is Some,
        pending_stroke_recorded(s0),
        handle_event_result(s0, InputEvent::MouseButtonUp, t0, s1, t1, o1),
        handle_event_result(s1, InputEvent::KeyDown(Key::U), t1, s2, t2, o2),
    ensures
        s2.whiteboard.data.data@ == s0.whiteboard.data.data@,
        s2.whiteboard.changes_index == s0.whiteboard.changes_index,
{
    law_undo_after_commit(s0.whiteboard, s0.change.unwrap(), s1.whiteboard, t1, s2.whiteboard, t2);
}

/// Releasing the mouse button on a stroke recorded against the canvas, then
/// pressing U and then R gives back the canvas as the release left it.
pub proof fn law_session_redo_after_undo(
    s0: Session,
    t0: Seq<u8>,
    s1: Session,
    t1: Seq<u8>,
    o1: EventOutcome,
    s2: Session,
    t2: Seq<u8>,
    o2: EventOutcome,
    s3: Session,
    t3: Seq<u8>,
    o3: EventOutcome,
)
    requires
        s0.wf(),
        s0.change is Some,
        pending_stroke_recorded(s0),
        handle_event_result(s0, InputEvent::MouseButtonUp, t0, s1, t1, o1),
        handle_event_result(s1, InputEvent::KeyDown(Key::U), t1, s2, t2, o2),
        handle_event_result(s2, InputEvent::KeyDown(Key::R), t2, s3, t3, o3),
    ensures
        s3.whiteboard.data.data@ == s1.whiteboard.data.data@,
        s3.whiteboard.changes_index == s1.whiteboard.changes_index,
{
    law_redo_after_undo(
        s0.whiteboard,
        s0.change.unwrap(),
        s1.whiteboard,
        t1,
        s2.whiteboard,
        t2,
        s3.whiteboard,
        t3,
    );
}

/// Strokes reach the canvas only when the mouse button is released: no event
/// but the release, undo and redo changes the canvas.
pub proof fn law_canvas_changes_only_on_release_undo_redo(
    s: Session,
    event: InputEvent,
    tex: Seq<u8>,
    s2: Session,
    tex2: Seq<u8>,
    out: EventOutcome,
)
    requires
        s.wf(),
        event != InputEvent::MouseButtonUp,
        event != InputEvent::KeyDown(Key::U),
        event != InputEvent::KeyDown(Key::R),
        handle_event_result(s, event, tex, s2, tex2, out),
    ensures
        s2.whiteboard.data.data@ == s.whiteboard.data.data@,
        s2.whiteboard.changes == s.whiteboard.changes,
        s2.whiteboard.changes_index == s.whiteboard.changes_index,
{
}

/// Pressing and releasing space gives back the tool in use before the press,
/// or, when space was already held, the one in use before it was first
/// pressed.
pub proof fn law_space_returns_to_tool(
    s: Session,
    t0: Seq<u8>,
    s1: Session,
    t1: Seq<u8>,
    o1: EventOutcome,
    s2: Session,
    t2: Seq<u8>,
    o2: EventOutcome,
)
    requires
        handle_event_result(s, InputEvent::KeyDown(Key::Space), t0, s1, t1, o1),
        handle_event_result(s1, InputEvent::KeyUp(Key::Space), t1, s2, t2, o2),
    ensures
        s1.tool_mode == ToolMode::MovingCanvas,
        s2.tool_mode == if s.tool_mode != ToolMode::MovingCanvas {
            s.tool_mode
        } else {
            s.old_tool
        },
        s2.whiteboard == s.whiteboard,
{
}

/// Undo treats the texture as the canvas: a texture that shows the canvas
/// still shows it after an undo, whatever kind of stroke is undone.
pub proof fn law_undo_keeps_texture_with_canvas(
    wb: Whiteboard,
    tex: Seq<u8>,
    wb2: Whiteboard,
    tex2: Seq<u8>,
)
    requires
        wb.wf(),
        tex == wb.data.data@,
        undo_result(wb, tex, wb2, tex2),
    ensures
        tex2 == wb2.data.data@,
{
}

/// Undo draws back into the texture, at every point the undone stroke
/// recorded, the colour the point had before the stroke, whatever kind of
/// stroke it was.
pub proof fn law_undo_draws_back_into_texture(
    wb: Whiteboard,
    tex: Seq<u8>,
    wb2: Whiteboard,
    tex2: Seq<u8>,
    k: u64,
)
    requires
        wb.wf(),
        wb.changes_index > 0,
        wb.changes@[wb.changes_index - 1].old_pixels().contains_key(k),
        point_index(key_point(k), wb.spec_width()) + 3 < tex.len(),
        undo_result(wb, tex, wb2, tex2),
    ensures
        color_at(tex2, point_index(key_point(k), wb.spec_width())) == Some(
            wb.changes@[wb.changes_index - 1].old_pixels()[k],
        ),
{
    let c = wb.changes@[wb.changes_index - 1];
    assert(c.on_canvas(wb.spec_width(), wb.spec_height()));
    lemma_paint_map_at(tex, wb.spec_width(), wb.spec_height(), c.old_pixels(), k);
}

/// Redo treats the texture as the canvas: a texture that shows the canvas
/// still shows it after a redo, whatever kind of stroke is redone.
pub proof fn law_redo_keeps_texture_with_canvas(
    wb: Whiteboard,
    tex: Seq<u8>,
    wb2: Whiteboard,
    tex2: Seq<u8>,
)
    requires
        wb.wf(),
        tex == wb.data.data@,
        redo_result(wb, tex, wb2, tex2),
    ensures
        tex2 == wb2.data.data@,
{
}

/// Redo applies the redone stroke to the texture: a pencil stroke's colours
/// are drawn at its points, an eraser stroke's points become transparent
/// black.
pub proof fn law_redo_applies_stroke_to_texture(
    wb: Whiteboard,
    tex: Seq<u8>,
    wb2: Whiteboard,
    tex2: Seq<u8>,
    k: u64,
)
    requires
        wb.wf(),
        wb.changes_index < wb.changes@.len(),
        wb.changes@[wb.changes_index as int].new_keys().contains(k),
        point_index(key_point(k), wb.spec_width()) + 3 < tex.len(),
        redo_result(wb, tex, wb2, tex2),
    ensures
        color_at(tex2, point_index(key_point(k), wb.spec_width())) == Some(
            match wb.changes@[wb.changes_index as int] {
                Change::Pencil { new, .. } => new@[k],
                Change::Eraser { .. } => Color { r: 0, g: 0, b: 0, a: 0 },
            },
        ),
{
    let c = wb.changes@[wb.changes_index as int];
    let w = wb.spec_width();
    let h = wb.spec_height();
    assert(c.on_canvas(w, h));
    match c {
        Change::Pencil { new, .. } => {
            lemma_paint_map_at(tex, w, h, new@, k);
        },
        Change::Eraser { new, .. } => {
            assert(transparent_at(new@).dom() =~= new@);
            lemma_paint_map_at(tex, w, h, transparent_at(new@), k);
        },
    }
}

/// A drag of the canvas is handled whenever the moved edges stay in `i32`:
/// `can_handle` accepts it, and handling it moves the canvas by the mouse's
/// move, on whichever side of the window the canvas ends up.
pub proof fn law_canvas_drag_is_handled(
    s: Session,
    x: i32,
    y: i32,
    p2: Point,
    tex: Seq<u8>,
    s2: Session,
    tex2: Seq<u8>,
    out: EventOutcome,
)
    requires
        s.wf(),
        s.mouse_held_down,
        s.tool_mode == ToolMode::MovingCanvas,
        s.point2 == Some(p2),
        ({
            let r = s.whiteboard.data.canvas_bounds;
            let dx = clamp_position(x as int) - p2.x;
            let dy = clamp_position(y as int) - p2.y;
            &&& i32::MIN <= r.x1 + dx <= i32::MAX
            &&& i32::MIN <= r.x2 + dx <= i32::MAX
            &&& i32::MIN <= r.y1 + dy <= i32::MAX
            &&& i32::MIN <= r.y2 + dy <= i32::MAX
        }),
    ensures
        s.spec_can_handle(InputEvent::MouseMotion(x, y)),
        handle_event_result(s, InputEvent::MouseMotion(x, y), tex, s2, tex2, out) ==> ({
            let r = s.whiteboard.data.canvas_bounds;
            let dx = clamp_position(x as int) - p2.x;
            let dy = clamp_position(y as int) - p2.y;
            s2.whiteboard.data.canvas_bounds == IntRect {
                x1: (r.x1 + dx) as i32,
                y1: (r.y1 + dy) as i32,
                x2: (r.x2 + dx) as i32,
                y2: (r.y2 + dy) as i32,
            }
        }),
{
}

/// Every mouse motion makes its position the last one, whether the button is
/// held or not, as `Point::new` makes a point of it.
pub proof fn law_motion_sets_last_position(
    s: Session,
    x: i32,
    y: i32,
    tex: Seq<u8>,
    s2: Session,
    tex2: Seq<u8>,
    out: EventOutcome,
)
    requires
        handle_event_result(s, InputEvent::MouseMotion(x, y), tex, s2, tex2, out),
    ensures
        s2.point2 == Some(
            Point { x: clamp_position(x as int) as i32, y: clamp_position(y as int) as i32 },
        ),
{
}

/// A press after the mouse rested at one point, followed by a held motion to
/// another with the pencil, draws the line from the second point back to the
/// first into the texture: every point of it on the canvas shows the pen
/// colour.
pub proof fn law_press_after_hover_draws_from_hover_point(
    s0: Session,
    px: i32,
    py: i32,
    qx: i32,
    qy: i32,
    t0: Seq<u8>,
    s1: Session,
    t1: Seq<u8>,
    o1: EventOutcome,
    s2: Session,
    t2: Seq<u8>,
    o2: EventOutcome,
    s3: Session,
    t3: Seq<u8>,
    o3: EventOutcome,
    k: int,
)
    requires
        s0.wf(),
        s0.tool_mode == ToolMode::Pencil,
        handle_event_result(s0, InputEvent::MouseMotion(px, py), t0, s1, t1, o1),
        handle_event_result(s1, InputEvent::MouseButtonDown, t1, s2, t2, o2),
        handle_event_result(s2, InputEvent::MouseMotion(qx, qy), t2, s3, t3, o3),
        ({
            let p = Point { x: clamp_position(px as int) as i32, y: clamp_position(py as int) as i32 };
            let q = Point { x: clamp_position(qx as int) as i32, y: clamp_position(qy as int) as i32 };
            let pts = line_points_in_rect(q, p, s0.whiteboard.data.canvas_bounds);
            &&& 0 <= k < pts.len()
            &&& point_index(pts[k], s0.whiteboard.spec_width()) + 3 < t2.len()
        }),
    ensures
        ({
            let p = Point { x: clamp_position(px as int) as i32, y: clamp_position(py as int) as i32 };
            let q = Point { x: clamp_position(qx as int) as i32, y: clamp_position(qy as int) as i32 };
            let pts = line_points_in_rect(q, p, s0.whiteboard.data.canvas_bounds);
            color_at(t3, point_index(pts[k], s0.whiteboard.spec_width())) == Some(s0.current_color)
        }),
{
    let p = Point { x: clamp_position(px as int) as i32, y: clamp_position(py as int) as i32 };
    let q = Point { x: clamp_position(qx as int) as i32, y: clamp_position(qy as int) as i32 };
    let r = s0.whiteboard.data.canvas_bounds;
    let pts = line_points_in_rect(q, p, r);
    assert(s2.whiteboard == s0.whiteboard);
    assert(s2.point2 == Some(p));
    lemma_width_value(r);
    lemma_points_in_rect_on_canvas(q, p, r);
    assert forall|j: int| 0 <= j < pts.len() implies (#[trigger] pts[j]).x < s0.whiteboard.spec_width() by {
    }
    lemma_colored_paint_at(t2, s0.whiteboard.spec_width(), pts, s0.current_color, k);
}

/// A pencil movement that starts a stroke records every point of its line
/// whose canvas colour differs from the pen colour in any channel, alpha
/// included: the colour it had as replaced, the pen colour as drawn.
pub proof fn law_pencil_records_changed_points(
    wb: Whiteboard,
    p1: Point,
    p2: Point,
    color: Color,
    tex: Seq<u8>,
    c: Change,
    wb2: Whiteboard,
    tex2: Seq<u8>,
    c2: Option<Change>,
    k: int,
)
    requires
        wb.wf(),
        c matches Change::Pencil { old, new } && old@ == Map::<u64, Color>::empty() && new@ == Map::<
            u64,
            Color,
        >::empty(),
        mouse_movement_result(wb, p1, p2, ToolMode::Pencil, color, tex, Some(c), wb2, tex2, c2),
        0 <= k < line_points_in_rect(p1, p2, wb.data.canvas_bounds).len(),
    ensures
        ({
            let q = line_points_in_rect(p1, p2, wb.data.canvas_bounds)[k];
            let key = point_key(q);
            match color_at(wb.data.data@, point_index(q, wb.spec_width())) {
                Some(cc) => cc != color ==> (c2 matches Some(Change::Pencil { old: o2, new: n2 })
                    && n2@.contains_key(key) && n2@[key] == color && o2@.contains_key(key)
                    && o2@[key] == cc),
                None => true,
            }
        }),
{
    let d = wb.data.data@;
    let w = wb.spec_width();
    let pts = line_points_in_rect(p1, p2, wb.data.canvas_bounds);
    let q = pts[k];
    let key = point_key(q);
    let pred = |p: UPoint| pencil_changes(d, w, color, p);
    let np = pencil_new_pixels(pts, d, w, color);
    let op = pencil_old_pixels(pts, d, w, color);
    if pencil_changes(d, w, color, q) {
        let cc = color_at(d, point_index(q, w)).unwrap();
        pts.lemma_filter_contains(pred, k);
        let f = pts.filter(pred);
        let j = choose|j: int| 0 <= j < f.len() && f[j] == q;
        assert(np[j].point == q && op[j].point == q);
        assert(pixel_keys(np).contains(key));
        assert(pixel_keys(op).contains(key));
        match (c, c2) {
            (Change::Pencil { old, new }, Some(Change::Pencil { old: o2, new: n2 })) => {
                lemma_inserted_from_back(new@, np);
                lemma_inserted_from_back(old@, op);
                assert(n2@.contains_key(key));
                assert(o2@.contains_key(key));
                let i = choose|i: int|
                    0 <= i < np.len() && point_key(np[i].point) == key && n2@[key] == np[i].color;
                let i2 = choose|i2: int|
                    0 <= i2 < op.len() && point_key(op[i2].point) == key && o2@[key] == op[i2].color;
                pts.lemma_filter_pred(pred, i2);
                lemma_point_key_inverse(op[i2].point, key);
                lemma_point_key_inverse(q, key);
                assert(op[i2].point == f[i2]);
                assert(f[i2] == q);
            },
            _ => {},
        }
    }
}

/// A pencil stroke started empty, moved along one line and committed leaves
/// every point of that line on the canvas in exactly the pen colour, all
/// four channels.
pub proof fn law_pencil_stroke_paints_its_line(
    wb: Whiteboard,
    p1: Point,
    p2: Point,
    color: Color,
    tex: Seq<u8>,
    c: Change,
    wb2: Whiteboard,
    tex2: Seq<u8>,
    c2: Option<Change>,
    wb3: Whiteboard,
    k: int,
)
    requires
        wb.wf(),
        p1.in_range(),
        p2.in_range(),
        c matches Change::Pencil { old, new } && old@ == Map::<u64, Color>::empty() && new@ == Map::<
            u64,
            Color,
        >::empty(),
        mouse_movement_result(wb, p1, p2, ToolMode::Pencil, color, tex, Some(c), wb2, tex2, c2),
        c2 is Some,
        commit_result(wb2, c2.unwrap(), wb3),
        0 <= k < line_points_in_rect(p1, p2, wb.data.canvas_bounds).len(),
    ensures
        color_at(
            wb3.data.data@,
            point_index(line_points_in_rect(p1, p2, wb.data.canvas_bounds)[k], wb.spec_width()),
        ) == Some(color),
{
    let d = wb.data.data@;
    let w = wb.spec_width();
    let h = wb.spec_height();
    let r = wb.data.canvas_bounds;
    let pts = line_points_in_rect(p1, p2, r);
    let q = pts[k];
    let key = point_key(q);
    let idx = point_index(q, w);
    law_pencil_records_changed_points(wb, p1, p2, color, tex, c, wb2, tex2, c2, k);
    assert(c.old_pixels().dom() =~= Set::<u64>::empty());
    assert(c.new_keys() =~= Set::<u64>::empty());
    assert(c.on_canvas(w, h));
    lemma_width_value(r);
    lemma_points_in_rect_on_canvas(p1, p2, r);
    assert(q.x < w && q.y < h);
    lemma_index_on_canvas(q, w, h);
    lemma_point_key_inverse(q, key);
    match (c, c2) {
        (Change::Pencil { new, .. }, Some(Change::Pencil { new: n2, .. })) => {
            assert(c2.unwrap().new_keys() == n2@.dom());
            assert(keys_on_canvas(n2@.dom(), w, h));
            assert(wb3.data.data@ == paint_map(d, w, n2@));
            if n2@.contains_key(key) {
                let np = pencil_new_pixels(pts, d, w, color);
                lemma_inserted_from_back(new@, np);
                let i = choose|i: int|
                    0 <= i < np.len() && point_key(np[i].point) == key && n2@[key] == np[i].color;
                assert(np[i].color == color);
                lemma_paint_map_at(d, w, h, n2@, key);
            } else {
                lemma_paint_map_elsewhere(d, w, h, n2@, q);
            }
        },
        _ => {},
    }
}

/// An eraser movement that starts a stroke records every point of its line,
/// and the colour of each one whose canvas colour is not transparent black in
/// every channel.
pub proof fn law_eraser_records_its_points(
    wb: Whiteboard,
    p1: Point,
    p2: Point,
    color: Color,
    tex: Seq<u8>,
    c: Change,
    wb2: Whiteboard,
    tex2: Seq<u8>,
    c2: Option<Change>,
    k: int,
)
    requires
        wb.wf(),
        c matches Change::Eraser { new, old } && old@ == Map::<u64, Color>::empty() && new@
            == Set::<u64>::empty(),
        mouse_movement_result(wb, p1, p2, ToolMode::Eraser, color, tex, Some(c), wb2, tex2, c2),
        0 <= k < line_points_in_rect(p1, p2, wb.data.canvas_bounds).len(),
    ensures
        ({
            let q = line_points_in_rect(p1, p2, wb.data.canvas_bounds)[k];
            let key = point_key(q);
            &&& c2 matches Some(Change::Eraser { new: n2, .. }) && n2@.contains(key)
            &&& match color_at(wb.data.data@, point_index(q, wb.spec_width())) {
                Some(cc) => cc != (Color { r: 0, g: 0, b: 0, a: 0 }) ==> (c2 matches Some(
                    Change::Eraser { old: o2, .. },
                ) && o2@.contains_key(key) && o2@[key] == cc),
                None => true,
            }
        }),
{
    let d = wb.data.data@;
    let w = wb.spec_width();
    let pts = line_points_in_rect(p1, p2, wb.data.canvas_bounds);
    let q = pts[k];
    let key = point_key(q);
    assert(keys_of(pts).contains(key));
    if eraser_changes(d, w, q) {
        let pred = |p: UPoint| eraser_changes(d, w, p);
        let op = eraser_old_pixels(pts, d, w);
        pts.lemma_filter_contains(pred, k);
        let f = pts.filter(pred);
        let j = choose|j: int| 0 <= j < f.len() && f[j] == q;
        assert(op[j].point == q);
        assert(pixel_keys(op).contains(key));
        match (c, c2) {
            (Change::Eraser { old, .. }, Some(Change::Eraser { old: o2, .. })) => {
                lemma_inserted_from_back(old@, op);
                assert(o2@.contains_key(key));
                let i2 = choose|i2: int|
                    0 <= i2 < op.len() && point_key(op[i2].point) == key && o2@[key] == op[i2].color;
                lemma_point_key_inverse(op[i2].point, key);
                lemma_point_key_inverse(q, key);
                assert(op[i2].point == f[i2]);
            },
            _ => {},
        }
    }
}

/// An eraser stroke moved along one line and committed leaves every point of
/// that line on the canvas transparent black.
pub proof fn law_eraser_stroke_clears_its_line(
    wb: Whiteboard,
    p1: Point,
    p2: Point,
    color: Color,
    tex: Seq<u8>,
    c: Change,
    wb2: Whiteboard,
    tex2: Seq<u8>,
    c2: Option<Change>,
    wb3: Whiteboard,
    k: int,
)
    requires
        wb.wf(),
        p1.in_range(),
        p2.in_range(),
        c is Eraser,
        c.on_canvas(wb.spec_width(), wb.spec_height()),
        mouse_movement_result(wb, p1, p2, ToolMode::Eraser, color, tex, Some(c), wb2, tex2, c2),
        c2 is Some,
        commit_result(wb2, c2.unwrap(), wb3),
        0 <= k < line_points_in_rect(p1, p2, wb.data.canvas_bounds).len(),
    ensures
        color_at(
            wb3.data.data@,
            point_index(line_points_in_rect(p1, p2, wb.data.canvas_bounds)[k], wb.spec_width()),
        ) == Some(Color { r: 0, g: 0, b: 0, a: 0 }),
{
    let d = wb.data.data@;
    let w = wb.spec_width();
    let h = wb.spec_height();
    let r = wb.data.canvas_bounds;
    let pts = line_points_in_rect(p1, p2, r);
    let q = pts[k];
    let key = point_key(q);
    lemma_width_value(r);
    lemma_points_in_rect_on_canvas(p1, p2, r);
    assert(q.x < w && q.y < h);
    lemma_index_on_canvas(q, w, h);
    lemma_point_key_inverse(q, key);
    assert(keys_of(pts).contains(key));
    match c2 {
        Some(Change::Eraser { new: n2, .. }) => {
            assert(c2.unwrap().new_keys() == n2@);
            let m = transparent_at(n2@);
            assert(m.dom() =~= n2@);
            assert(n2@.contains(key));
            lemma_paint_map_at(d, w, h, m, key);
        },
        _ => {},
    }
}

} // verus!
