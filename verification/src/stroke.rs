use vstd::prelude::*;
use crate::color::Color;
use crate::geometry::{Point, UPoint, IntRect};
use crate::canvas::{Pixel, point_index, color_at, draw_pixel_at, erase_point};
use crate::line::{
    line_points, line_points_in_rect, clamped_inside, line_fits, in_bounding_box,
    law_line_stays_in_bounding_box, make_line_in_rect,
};
use crate::pixels::{
    point_key, key_point, keys_of, pixel_keys, inserted_from_back, lemma_point_key_inverse,
};
use crate::whiteboard::{Whiteboard, Change, lemma_width_value, lemma_index_on_canvas};
use crate::painting::{paint_pixels, erase_points, keys_on_canvas, key_on_canvas, colored};

verus! {

broadcast use vstd::seq_lib::group_seq_properties;

/// The tool in use.
#[derive(Clone, Copy, PartialEq, Eq, Structural, Debug)]
pub enum ToolMode {
    Idle,
    Pencil,
    Eraser,
    MovingCanvas,
}

/// `v`, reinterpreted from `i32` to `u32` and back to a number, when it is a
/// non-negative `i32`.
proof fn lemma_nonneg_cast(v: int)
    requires
        0 <= v <= i32::MAX,
    ensures
        ((v as i32) as u32) as int == v,
{
    let x: i32 = v as i32;
    assert(x >= 0 ==> (x as u32) as int == x as int) by (bit_vector);
}

/// Every point that `make_line_in_rect` keeps lies on a canvas of the
/// rectangle's size.
pub proof fn lemma_points_in_rect_on_canvas(p1: Point, p2: Point, rect: IntRect)
    requires
        p1.in_range(),
        p2.in_range(),
        rect.width_fits(),
        rect.height_fits(),
    ensures
        forall|k: int|
            0 <= k < line_points_in_rect(p1, p2, rect).len() ==> {
                let p = #[trigger] line_points_in_rect(p1, p2, rect)[k];
                p.x < rect.x2 - rect.x1 && p.y < rect.y2 - rect.y1
            },
{
    let line = line_points(p1, p2);
    let pred = |q: (int, int)| clamped_inside(q, rect);
    let f = line.filter(pred);
    law_line_stays_in_bounding_box(p1, p2);
    assert forall|k: int| 0 <= k < line_points_in_rect(p1, p2, rect).len() implies {
        let p = #[trigger] line_points_in_rect(p1, p2, rect)[k];
        p.x < rect.x2 - rect.x1 && p.y < rect.y2 - rect.y1
    } by {
        let q = f[k];
        line.lemma_filter_pred(pred, k);
        assert(f.contains(q));
        line.lemma_filter_contains_rev(pred, q);
        let j = choose|j: int| 0 <= j < line.len() && line[j] == q;
        assert(in_bounding_box(p1, p2, line[j]));
        lemma_nonneg_cast(q.0 - rect.x1);
        lemma_nonneg_cast(q.1 - rect.y1);
    }
}

/// Whether a pencil stroke of `color` records the point `p`: the canvas holds
/// a colour there, and a different one.
pub open spec fn pencil_changes(data: Seq<u8>, w: int, color: Color, p: UPoint) -> bool {
    match color_at(data, point_index(p, w)) {
        Some(c) => c != color,
        None => false,
    }
}

/// Whether an eraser stroke records the point `p`: the canvas holds a colour
/// there other than transparent black.
pub open spec fn eraser_changes(data: Seq<u8>, w: int, p: UPoint) -> bool {
    match color_at(data, point_index(p, w)) {
        Some(c) => c != Color::spec_transparent(),
        None => false,
    }
}

/// The colour of the canvas at `p`, for a point that has one.
pub open spec fn canvas_color(data: Seq<u8>, w: int, p: UPoint) -> Color {
    match color_at(data, point_index(p, w)) {
        Some(c) => c,
        None => Color::spec_transparent(),
    }
}

/// The colours that a pencil stroke of `color` over `pts` replaces.
pub open spec fn pencil_old_pixels(pts: Seq<UPoint>, data: Seq<u8>, w: int, color: Color) -> Seq<Pixel> {
    pts.filter(|p: UPoint| pencil_changes(data, w, color, p)).map_values(
        |p: UPoint| Pixel { color: canvas_color(data, w, p), point: p },
    )
}

/// The colours that a pencil stroke of `color` over `pts` draws where it
/// changes the canvas.
pub open spec fn pencil_new_pixels(pts: Seq<UPoint>, data: Seq<u8>, w: int, color: Color) -> Seq<Pixel> {
    pts.filter(|p: UPoint| pencil_changes(data, w, color, p)).map_values(
        |p: UPoint| Pixel { color: color, point: p },
    )
}

/// The colours that an eraser stroke over `pts` removes.
pub open spec fn eraser_old_pixels(pts: Seq<UPoint>, data: Seq<u8>, w: int) -> Seq<Pixel> {
    pts.filter(|p: UPoint| eraser_changes(data, w, p)).map_values(
        |p: UPoint| Pixel { color: canvas_color(data, w, p), point: p },
    )
}

/// Whether a stroke was recorded against the canvas `d` (rows `w` pixels
/// long): every colour it would put back is the one the canvas holds, a
/// pencil stroke puts back a colour at every point it draws, and an eraser
/// stroke puts back one at every point it erases except where the canvas is
/// transparent black or has no whole pixel.
pub open spec fn recorded_against(c: Change, d: Seq<u8>, w: int) -> bool {
    &&& forall|k: u64| #[trigger]
        c.old_pixels().contains_key(k) ==> color_at(d, point_index(key_point(k), w)) == Some(
            c.old_pixels()[k],
        )
    &&& match c {
        Change::Pencil { old, new } => old@.dom() == new@.dom(),
        Change::Eraser { new, old } => {
            &&& old@.dom().subset_of(new@)
            &&& forall|k: u64| #[trigger]
                new@.contains(k) && !old@.contains_key(k) ==> match color_at(
                    d,
                    point_index(key_point(k), w),
                ) {
                    Some(col) => col == Color::spec_transparent(),
                    None => true,
                }
        },
    }
}

/// What inserting from the back keeps: its keys are those of `m` and of the
/// pixels of `s`, and each value is either the one in `m` or the colour of a
/// pixel of `s` at that key.
pub proof fn lemma_inserted_from_back(m: Map<u64, Color>, s: Seq<Pixel>)
    ensures
        inserted_from_back(m, s).dom() == m.dom() + pixel_keys(s),
        forall|k: u64| #[trigger]
            inserted_from_back(m, s).contains_key(k) ==> (m.contains_key(k) && inserted_from_back(
                m,
                s,
            )[k] == m[k]) || exists|i: int|
                0 <= i < s.len() && point_key(s[i].point) == k && inserted_from_back(m, s)[k]
                    == s[i].color,
    decreases s.len(),
{
    if s.len() > 0 {
        let m2 = m.insert(point_key(s.last().point), s.last().color);
        let t = s.drop_last();
        lemma_inserted_from_back(m2, t);
        let r = inserted_from_back(m, s);
        assert(r == inserted_from_back(m2, t));
        assert forall|k: u64| #[trigger] (m.dom() + pixel_keys(s)).contains(k) <==> r.contains_key(
            k,
        ) by {
            if pixel_keys(s).contains(k) {
                let i = choose|i: int| 0 <= i < s.len() && point_key(s[i].point) == k;
                if i < s.len() - 1 {
                    assert(t[i] == s[i]);
                    assert(pixel_keys(t).contains(k));
                }
            }
            if pixel_keys(t).contains(k) {
                let i = choose|i: int| 0 <= i < t.len() && point_key(t[i].point) == k;
                assert(s[i] == t[i]);
            }
        }
        assert(r.dom() =~= m.dom() + pixel_keys(s));
        assert forall|k: u64| #[trigger] r.contains_key(k) implies (m.contains_key(k) && r[k]
            == m[k]) || exists|i: int|
            0 <= i < s.len() && point_key(s[i].point) == k && r[k] == s[i].color by {
            if exists|i: int| 0 <= i < t.len() && point_key(t[i].point) == k && r[k] == t[i].color {
                let i = choose|i: int|
                    0 <= i < t.len() && point_key(t[i].point) == k && r[k] == t[i].color;
                assert(s[i] == t[i]);
            } else if k == point_key(s.last().point) {
                assert(point_key(s[s.len() - 1].point) == k);
            }
        }
    }
}


/// Filtering and mapping a sequence with one more element at its end.
pub proof fn lemma_filter_map_push<A, B>(s: Seq<A>, x: A, pred: spec_fn(A) -> bool, f: spec_fn(A) -> B)
    ensures
        s.push(x).filter(pred).map_values(f) == if pred(x) {
            s.filter(pred).map_values(f).push(f(x))
        } else {
            s.filter(pred).map_values(f)
        },
{
    s.lemma_filter_push(x, pred);
    if pred(x) {
        s.filter(pred).lemma_push_map_commute(f, x);
    }
}

/// The points of the pixels of `s.filter(pred).map_values(f)`, for an `f`
/// that keeps the point, are points of `s` satisfying `pred`.
proof fn lemma_filtered_pixel_keys(s: Seq<UPoint>, pred: spec_fn(UPoint) -> bool, f: spec_fn(UPoint) -> Pixel)
    requires
        forall|p: UPoint| #[trigger] f(p).point == p,
    ensures
        forall|k: u64| #[trigger]
            pixel_keys(s.filter(pred).map_values(f)).contains(k) ==> exists|j: int|
                0 <= j < s.len() && point_key(s[j]) == k && pred(s[j]),
        forall|j: int|
            0 <= j < s.len() && pred(s[j]) ==> #[trigger] pixel_keys(
                s.filter(pred).map_values(f),
            ).contains(point_key(s[j])),
{
    let fl = s.filter(pred);
    let m = fl.map_values(f);
    assert forall|k: u64| #[trigger] pixel_keys(m).contains(k) implies exists|j: int|
        0 <= j < s.len() && point_key(s[j]) == k && pred(s[j]) by {
        let i = choose|i: int| 0 <= i < m.len() && point_key(m[i].point) == k;
        s.lemma_filter_pred(pred, i);
        assert(fl.contains(fl[i]));
        s.lemma_filter_contains_rev(pred, fl[i]);
        let j = choose|j: int| 0 <= j < s.len() && s[j] == fl[i];
        assert(point_key(s[j]) == k);
    }
    assert forall|j: int| 0 <= j < s.len() && pred(s[j]) implies #[trigger] pixel_keys(m).contains(
        point_key(s[j]),
    ) by {
        s.lemma_filter_contains(pred, j);
        let i = choose|i: int| 0 <= i < fl.len() && fl[i] == s[j];
        assert(m[i].point == s[j]);
    }
}

/// The colours recorded from the canvas `d` are the colours it holds.
proof fn lemma_recorded_colors(
    m: Map<u64, Color>,
    s: Seq<UPoint>,
    pred: spec_fn(UPoint) -> bool,
    d: Seq<u8>,
    w: int,
)
    requires
        forall|k: u64| #[trigger]
            m.contains_key(k) ==> color_at(d, point_index(key_point(k), w)) == Some(m[k]),
        forall|p: UPoint| #[trigger] pred(p) ==> color_at(d, point_index(p, w)) is Some,
    ensures
        ({
            let m2 = inserted_from_back(
                m,
                s.filter(pred).map_values(
                    |p: UPoint| Pixel { color: canvas_color(d, w, p), point: p },
                ),
            );
            forall|k: u64| #[trigger]
                m2.contains_key(k) ==> color_at(d, point_index(key_point(k), w)) == Some(m2[k])
        }),
{
    let f = |p: UPoint| Pixel { color: canvas_color(d, w, p), point: p };
    let fl = s.filter(pred);
    let olds = fl.map_values(f);
    let m2 = inserted_from_back(m, olds);
    lemma_inserted_from_back(m, olds);
    assert forall|k: u64| #[trigger] m2.contains_key(k) implies color_at(
        d,
        point_index(key_point(k), w),
    ) == Some(m2[k]) by {
        if !(m.contains_key(k) && m2[k] == m[k]) {
            let i = choose|i: int| 0 <= i < olds.len() && point_key(olds[i].point) == k && m2[k] == olds[i].color;
            s.lemma_filter_pred(pred, i);
            lemma_point_key_inverse(olds[i].point, k);
        }
    }
}

/// A pencil stroke recorded against the canvas `d` stays so after a mouse
/// movement records more of it, and stays on the canvas.
pub proof fn lemma_pencil_record_step(
    o: Map<u64, Color>,
    n: Map<u64, Color>,
    pts: Seq<UPoint>,
    d: Seq<u8>,
    w: int,
    h: int,
    color: Color,
)
    requires
        forall|k: int| 0 <= k < pts.len() ==> (#[trigger] pts[k]).x < w && pts[k].y < h,
    ensures
        ({
            let o2 = inserted_from_back(o, pencil_old_pixels(pts, d, w, color));
            let n2 = inserted_from_back(n, pencil_new_pixels(pts, d, w, color));
            &&& (keys_on_canvas(o.dom(), w, h) && keys_on_canvas(n.dom(), w, h)) ==> (keys_on_canvas(
                o2.dom(),
                w,
                h,
            ) && keys_on_canvas(n2.dom(), w, h))
            &&& (o.dom() == n.dom() && forall|k: u64| #[trigger]
                o.contains_key(k) ==> color_at(d, point_index(key_point(k), w)) == Some(o[k])) ==> (
            o2.dom() == n2.dom() && forall|k: u64| #[trigger]
                o2.contains_key(k) ==> color_at(d, point_index(key_point(k), w)) == Some(o2[k]))
        }),
{
    let pred = |p: UPoint| pencil_changes(d, w, color, p);
    let fo = |p: UPoint| Pixel { color: canvas_color(d, w, p), point: p };
    let fnew = |p: UPoint| Pixel { color: color, point: p };
    let olds = pencil_old_pixels(pts, d, w, color);
    let news = pencil_new_pixels(pts, d, w, color);
    assert(olds == pts.filter(pred).map_values(fo));
    assert(news == pts.filter(pred).map_values(fnew));
    lemma_inserted_from_back(o, olds);
    lemma_inserted_from_back(n, news);
    lemma_filtered_pixel_keys(pts, pred, fo);
    lemma_filtered_pixel_keys(pts, pred, fnew);
    assert(pixel_keys(olds) =~= pixel_keys(news));
    assert forall|k: u64| #[trigger] pixel_keys(olds).contains(k) implies key_on_canvas(k, w, h) by {
        let j = choose|j: int| 0 <= j < pts.len() && point_key(pts[j]) == k && pred(pts[j]);
        lemma_point_key_inverse(pts[j], k);
    }
    if o.dom() == n.dom() && forall|k: u64| #[trigger]
        o.contains_key(k) ==> color_at(d, point_index(key_point(k), w)) == Some(o[k]) {
        lemma_recorded_colors(o, pts, pred, d, w);
    }
}

/// An eraser stroke recorded against the canvas `d` stays so after a mouse
/// movement records more of it, and stays on the canvas.
pub proof fn lemma_eraser_record_step(
    n: Set<u64>,
    o: Map<u64, Color>,
    pts: Seq<UPoint>,
    d: Seq<u8>,
    w: int,
    h: int,
)
    requires
        forall|k: int| 0 <= k < pts.len() ==> (#[trigger] pts[k]).x < w && pts[k].y < h,
    ensures
        ({
            let o2 = inserted_from_back(o, eraser_old_pixels(pts, d, w));
            let n2 = n + keys_of(pts);
            &&& (keys_on_canvas(o.dom(), w, h) && keys_on_canvas(n, w, h)) ==> (keys_on_canvas(
                o2.dom(),
                w,
                h,
            ) && keys_on_canvas(n2, w, h))
            &&& ({
                &&& o.dom().subset_of(n)
                &&& forall|k: u64| #[trigger]
                    o.contains_key(k) ==> color_at(d, point_index(key_point(k), w)) == Some(o[k])
                &&& forall|k: u64| #[trigger]
                    n.contains(k) && !o.contains_key(k) ==> match color_at(
                        d,
                        point_index(key_point(k), w),
                    ) {
                        Some(col) => col == Color::spec_transparent(),
                        None => true,
                    }
            }) ==> ({
                &&& o2.dom().subset_of(n2)
                &&& forall|k: u64| #[trigger]
                    o2.contains_key(k) ==> color_at(d, point_index(key_point(k), w)) == Some(o2[k])
                &&& forall|k: u64| #[trigger]
                    n2.contains(k) && !o2.contains_key(k) ==> match color_at(
                        d,
                        point_index(key_point(k), w),
                    ) {
                        Some(col) => col == Color::spec_transparent(),
                        None => true,
                    }
            })
        }),
{
    let pred = |p: UPoint| eraser_changes(d, w, p);
    let fo = |p: UPoint| Pixel { color: canvas_color(d, w, p), point: p };
    let olds = eraser_old_pixels(pts, d, w);
    assert(olds == pts.filter(pred).map_values(fo));
    let o2 = inserted_from_back(o, olds);
    let n2 = n + keys_of(pts);
    lemma_inserted_from_back(o, olds);
    lemma_filtered_pixel_keys(pts, pred, fo);
    assert forall|k: u64| #[trigger] pixel_keys(olds).contains(k) implies keys_of(pts).contains(k) by {
        let j = choose|j: int| 0 <= j < pts.len() && point_key(pts[j]) == k && pred(pts[j]);
    }
    assert forall|k: u64| #[trigger] keys_of(pts).contains(k) implies key_on_canvas(k, w, h) by {
        let j = choose|j: int| 0 <= j < pts.len() && point_key(pts[j]) == k;
        lemma_point_key_inverse(pts[j], k);
    }
    if ({
        &&& o.dom().subset_of(n)
        &&& forall|k: u64| #[trigger]
            o.contains_key(k) ==> color_at(d, point_index(key_point(k), w)) == Some(o[k])
        &&& forall|k: u64| #[trigger]
            n.contains(k) && !o.contains_key(k) ==> match color_at(
                d,
                point_index(key_point(k), w),
            ) {
                Some(col) => col == Color::spec_transparent(),
                None => true,
            }
    }) {
        lemma_recorded_colors(o, pts, pred, d, w);
        assert forall|k: u64| #[trigger] n2.contains(k) && !o2.contains_key(k) implies match color_at(
            d,
            point_index(key_point(k), w),
        ) {
            Some(col) => col == Color::spec_transparent(),
            None => true,
        } by {
            if !n.contains(k) {
                let j = choose|j: int| 0 <= j < pts.len() && point_key(pts[j]) == k;
                lemma_point_key_inverse(pts[j], k);
                if pred(pts[j]) {
                    assert(pixel_keys(olds).contains(point_key(pts[j])));
                }
            }
        }
    }
}

/// Whether shifting `r` by `(dx, dy)` keeps every edge in `i32`.
pub open spec fn shift_fits(r: IntRect, dx: int, dy: int) -> bool {
    &&& i32::MIN <= r.x1 + dx <= i32::MAX
    &&& i32::MIN <= r.x2 + dx <= i32::MAX
    &&& i32::MIN <= r.y1 + dy <= i32::MAX
    &&& i32::MIN <= r.y2 + dy <= i32::MAX
}

/// Tells whether `shift_fits(*r, dx, dy)`.
pub fn shift_fits_check(r: &IntRect, dx: i32, dy: i32) -> (b: bool)
    ensures
        b == shift_fits(*r, dx as int, dy as int),
{
    let x1 = r.x1 as i64 + dx as i64;
    let x2 = r.x2 as i64 + dx as i64;
    let y1 = r.y1 as i64 + dy as i64;
    let y2 = r.y2 as i64 + dy as i64;
    let lo = i32::MIN as i64;
    let hi = i32::MAX as i64;
    lo <= x1 && x1 <= hi && lo <= x2 && x2 <= hi && lo <= y1 && y1 <= hi && lo <= y2 && y2 <= hi
}

/// What `mouse_movement` does, from the whiteboard `wb`, the texture `tex`
/// and the pending stroke `change` to `wb2`, `tex2` and `change2`.
pub open spec fn mouse_movement_result(
    wb: Whiteboard,
    point1: Point,
    point2: Point,
    tool_mode: ToolMode,
    color: Color,
    tex: Seq<u8>,
    change: Option<Change>,
    wb2: Whiteboard,
    tex2: Seq<u8>,
    change2: Option<Change>,
) -> bool {
    let w = wb.spec_width();
    let h = wb.spec_height();
    let d = wb.data.data@;
    let pts = line_points_in_rect(point1, point2, wb.data.canvas_bounds);
    &&& wb2.spec_width() == w
    &&& wb2.spec_height() == h
    &&& (change matches Some(c) && c.on_canvas(w, h)) ==> (change2 matches Some(c2) && c2.on_canvas(w, h))
    &&& (tool_mode == ToolMode::Pencil || tool_mode == ToolMode::Eraser) ==> ((change matches Some(c)
        && recorded_against(c, d, w)) ==> (change2 matches Some(c2) && recorded_against(
        c2,
        wb2.data.data@,
        w,
    )))
    &&& match tool_mode {
        ToolMode::Idle => {
            &&& wb2 == wb
            &&& tex2 == tex
            &&& change2 == change
        },
        ToolMode::MovingCanvas => {
            &&& wb2.data.canvas_bounds.x1 == wb.data.canvas_bounds.x1 + (point1.x - point2.x)
            &&& wb2.data.canvas_bounds.x2 == wb.data.canvas_bounds.x2 + (point1.x - point2.x)
            &&& wb2.data.canvas_bounds.y1 == wb.data.canvas_bounds.y1 + (point1.y - point2.y)
            &&& wb2.data.canvas_bounds.y2 == wb.data.canvas_bounds.y2 + (point1.y - point2.y)
            &&& wb2.data.data == wb.data.data
            &&& wb2.bgcolor == wb.bgcolor
            &&& wb2.changes == wb.changes
            &&& wb2.changes_index == wb.changes_index
            &&& tex2 == tex
            &&& change2 == change
        },
        ToolMode::Pencil => {
            &&& wb2 == wb
            &&& tex2 == paint_pixels(tex, w, colored(pts, color))
            &&& match change {
                Some(Change::Pencil { old: o, new: n }) => match change2 {
                    Some(Change::Pencil { old: o2, new: n2 }) => {
                        &&& o2@ == inserted_from_back(o@, pencil_old_pixels(pts, d, w, color))
                        &&& n2@ == inserted_from_back(n@, pencil_new_pixels(pts, d, w, color))
                    },
                    _ => false,
                },
                _ => change2 == change,
            }
        },
        ToolMode::Eraser => {
            &&& wb2 == wb
            &&& tex2 == erase_points(tex, w, pts)
            &&& match change {
                Some(Change::Eraser { new: n, old: o }) => match change2 {
                    Some(Change::Eraser { new: n2, old: o2 }) => {
                        &&& o2@ == inserted_from_back(o@, eraser_old_pixels(pts, d, w))
                        &&& n2@ == n@ + keys_of(pts)
                    },
                    _ => false,
                },
                _ => change2 == change,
            }
        },
    }
}

/// Handles a move of the mouse from `point2` to `point1` with the button held,
/// for the tool `tool_mode`:
/// - moving the canvas shifts its bounds by `point1 - point2`;
/// - the pencil draws `color` into `texture` along the line from `point1` to
///   `point2` clipped to the canvas, and records in a pending pencil stroke
///   the colours it replaces and draws where the canvas colour differs;
/// - the eraser erases that line in `texture` and records in a pending eraser
///   stroke its points and the colours that were not transparent black.
/// The canvas itself is left alone until the stroke is committed.
pub fn mouse_movement(
    whiteboard: &mut Whiteboard,
    point1: Point,
    point2: Point,
    tool_mode: &ToolMode,
    color: Color,
    texture: &mut [u8],
    change: &mut Option<Change>,
)
    requires
        old(whiteboard).wf(),
        point1.in_range(),
        point2.in_range(),
        (*tool_mode == ToolMode::Pencil || *tool_mode == ToolMode::Eraser) ==> line_fits(point1, point2),
        *tool_mode == ToolMode::MovingCanvas ==> shift_fits(
            old(whiteboard).data.canvas_bounds,
            point1.x - point2.x,
            point1.y - point2.y,
        ),
    ensures
        final(whiteboard).wf(),
        mouse_movement_result(
            *old(whiteboard),
            point1,
            point2,
            *tool_mode,
            color,
            old(texture)@,
            *old(change),
            *final(whiteboard),
            final(texture)@,
            *final(change),
        ),
{
    match tool_mode {
        ToolMode::Idle => {},
        ToolMode::MovingCanvas => {
            let dx = point1.x - point2.x;
            let dy = point1.y - point2.y;
            whiteboard.data.canvas_bounds.shift(dx, dy);
        },
        ToolMode::Pencil => {
            let ghost w = whiteboard.spec_width();
            let ghost h = whiteboard.spec_height();
            let ghost d = whiteboard.data.data@;
            let ghost tex0 = texture@;
            let ghost pred = |p: UPoint| pencil_changes(d, w, color, p);
            let ghost fo = |p: UPoint| Pixel { color: canvas_color(d, w, p), point: p };
            let ghost fn_ = |p: UPoint| Pixel { color: color, point: p };
            let ghost fc = |p: UPoint| Pixel { color: color, point: p };
            let mut point_list: Vec<UPoint> = Vec::new();
            make_line_in_rect(&mut point_list, point1, point2, &whiteboard.data.canvas_bounds);
            let ghost pts = point_list@;
            proof {
                assert(pts == line_points_in_rect(point1, point2, whiteboard.data.canvas_bounds));
                lemma_points_in_rect_on_canvas(point1, point2, whiteboard.data.canvas_bounds);
                lemma_width_value(whiteboard.data.canvas_bounds);
            }
            // the length of the buffer is a `usize`, which bounds the canvas size
            let _len = whiteboard.data.data.len();
            let mut old_pixels: Vec<Pixel> = Vec::new();
            let mut new_pixels: Vec<Pixel> = Vec::new();
            let mut n: usize = 0;
            while n < point_list.len()
                invariant
                    n <= pts.len(),
                    point_list@ == pts,
                    whiteboard.wf(),
                    *whiteboard == *old(whiteboard),
                    w == whiteboard.spec_width(),
                    h == whiteboard.spec_height(),
                    d == whiteboard.data.data@,
                    w * h * 4 <= usize::MAX,
                    forall|k: int| 0 <= k < pts.len() ==> (#[trigger] pts[k]).x < w && pts[k].y < h,
                    pred == (|p: UPoint| pencil_changes(d, w, color, p)),
                    fo == (|p: UPoint| Pixel { color: canvas_color(d, w, p), point: p }),
                    fn_ == (|p: UPoint| Pixel { color: color, point: p }),
                    fc == (|p: UPoint| Pixel { color: color, point: p }),
                    texture@ == paint_pixels(tex0, w, pts.take(n as int).map_values(fc)),
                    old_pixels@ == pts.take(n as int).filter(pred).map_values(fo),
                    new_pixels@ == pts.take(n as int).filter(pred).map_values(fn_),
                decreases pts.len() - n,
            {
                let point = point_list[n];
                proof {
                    lemma_index_on_canvas(point, w, h);
                    assert(pts.take(n + 1) =~= pts.take(n as int).push(point));
                    lemma_filter_map_push(pts.take(n as int), point, pred, fo);
                    lemma_filter_map_push(pts.take(n as int), point, pred, fn_);
                    pts.take(n as int).lemma_push_map_commute(fc, point);
                    assert(pts.take(n + 1).map_values(fc).drop_last() =~= pts.take(n as int).map_values(fc));
                }
                draw_pixel_at(texture, &point, &color, whiteboard.width() as usize);
                let old_color = whiteboard.get_color_at_point(&point);
                match old_color {
                    Some(oc) => {
                        if color != oc {
                            old_pixels.push(Pixel::new(oc, point));
                            new_pixels.push(Pixel::new(color, point));
                        }
                    },
                    None => {},
                }
                n += 1;
            }
            proof {
                assert(pts.take(pts.len() as int) =~= pts);
            }
            let ghost oc = *change;
            match change {
                Some(Change::Pencil { old, new }) => {
                    old.append(&mut old_pixels);
                    new.append(&mut new_pixels);
                },
                _ => {},
            }
            proof {
                match oc {
                    Some(Change::Pencil { old: o, new: nw }) => {
                        lemma_pencil_record_step(o@, nw@, pts, d, w, h, color);
                        if recorded_against(oc.unwrap(), d, w) {
                            assert(o@.dom() == nw@.dom());
                            assert forall|k: u64| #[trigger] o@.contains_key(k) implies color_at(
                                d,
                                point_index(key_point(k), w),
                            ) == Some(o@[k]) by {
                                assert(oc.unwrap().old_pixels().contains_key(k));
                            }
                        }
                    },
                    _ => {},
                }
            }
        },
        ToolMode::Eraser => {
            let ghost w = whiteboard.spec_width();
            let ghost h = whiteboard.spec_height();
            let ghost d = whiteboard.data.data@;
            let ghost tex0 = texture@;
            let ghost pred = |p: UPoint| eraser_changes(d, w, p);
            let ghost fo = |p: UPoint| Pixel { color: canvas_color(d, w, p), point: p };
            let mut point_list: Vec<UPoint> = Vec::new();
            make_line_in_rect(&mut point_list, point1, point2, &whiteboard.data.canvas_bounds);
            let ghost pts = point_list@;
            proof {
                lemma_points_in_rect_on_canvas(point1, point2, whiteboard.data.canvas_bounds);
                lemma_width_value(whiteboard.data.canvas_bounds);
            }
            // the length of the buffer is a `usize`, which bounds the canvas size
            let _len = whiteboard.data.data.len();
            let mut old_pixels: Vec<Pixel> = Vec::new();
            let mut n: usize = 0;
            while n < point_list.len()
                invariant
                    n <= pts.len(),
                    point_list@ == pts,
                    whiteboard.wf(),
                    *whiteboard == *old(whiteboard),
                    w == whiteboard.spec_width(),
                    h == whiteboard.spec_height(),
                    d == whiteboard.data.data@,
                    w * h * 4 <= usize::MAX,
                    forall|k: int| 0 <= k < pts.len() ==> (#[trigger] pts[k]).x < w && pts[k].y < h,
                    pred == (|p: UPoint| eraser_changes(d, w, p)),
                    fo == (|p: UPoint| Pixel { color: canvas_color(d, w, p), point: p }),
                    texture@ == erase_points(tex0, w, pts.take(n as int)),
                    old_pixels@ == pts.take(n as int).filter(pred).map_values(fo),
                decreases pts.len() - n,
            {
                let eraser_point = &point_list[n];
                proof {
                    lemma_index_on_canvas(*eraser_point, w, h);
                    assert(pts.take(n + 1) =~= pts.take(n as int).push(*eraser_point));
                    lemma_filter_map_push(pts.take(n as int), *eraser_point, pred, fo);
                    assert(pts.take(n + 1).drop_last() =~= pts.take(n as int));
                }
                erase_point(texture, eraser_point, whiteboard.width() as usize);
                let old_color = whiteboard.get_color_at_point(eraser_point);
                match old_color {
                    Some(oc) => {
                        if oc != Color::transparent() {
                            old_pixels.push(Pixel::new(oc, *eraser_point));
                        }
                    },
                    None => {},
                }
                n += 1;
            }
            proof {
                assert(pts.take(pts.len() as int) =~= pts);
            }
            let ghost oc = *change;
            match change {
                Some(Change::Eraser { old, new }) => {
                    old.append(&mut old_pixels);
                    new.append(&mut point_list);
                },
                _ => {},
            }
            proof {
                match oc {
                    Some(Change::Eraser { new: nw, old: o }) => {
                        lemma_eraser_record_step(nw@, o@, pts, d, w, h);
                        if recorded_against(oc.unwrap(), d, w) {
                            assert(o@.dom().subset_of(nw@));
                            assert forall|k: u64| #[trigger] o@.contains_key(k) implies color_at(
                                d,
                                point_index(key_point(k), w),
                            ) == Some(o@[k]) by {
                                assert(oc.unwrap().old_pixels().contains_key(k));
                            }
                            assert forall|k: u64| #[trigger]
                                nw@.contains(k) && !o@.contains_key(k) implies match color_at(
                                d,
                                point_index(key_point(k), w),
                            ) {
                                Some(col) => col == Color::spec_transparent(),
                                None => true,
                            } by {
                                assert(oc.unwrap().old_pixels().contains_key(k) == o@.contains_key(k));
                            }
                        }
                    },
                    _ => {},
                }
            }
        },
    }
}
} // verus!
