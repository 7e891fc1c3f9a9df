use vstd::prelude::*;
use crate::geometry::{Point, UPoint, IntRect, clamp_position};

verus! {

broadcast use vstd::seq_lib::group_seq_properties;

/// In the stepping walk, with `d == a * j - b * i` after `i` horizontal and
/// `j` vertical steps, whether the walk steps horizontally.
pub open spec fn steps_x(a: int, d: int) -> bool {
    d >= -a
}

/// In the stepping walk, whether the walk steps vertically.
pub open spec fn steps_y(b: int, d: int) -> bool {
    d <= b
}

/// The offsets visited by the stepping walk toward `(a, b)` from the state
/// `(i, j, d)`: it takes the horizontal step when `d >= -a` and the vertical
/// one when `d <= b`, both when both hold, and stops once a step it takes
/// would leave the far edge on that axis (the horizontal test comes first).
pub open spec fn walk(a: int, b: int, i: int, j: int, d: int) -> Seq<(int, int)>
    decreases (a - i) + (b - j),
{
    if !(0 <= i <= a && 0 <= j <= b) {
        Seq::empty()
    } else if steps_x(a, d) && i == a {
        seq![(i, j)]
    } else if steps_y(b, d) && j == b {
        seq![(i, j)]
    } else {
        let ni = if steps_x(a, d) { i + 1 } else { i };
        let nj = if steps_y(b, d) { j + 1 } else { j };
        let nd = d - (if steps_x(a, d) { b } else { 0 }) + (if steps_y(b, d) { a } else { 0 });
        seq![(i, j)] + walk(a, b, ni, nj, nd)
    }
}

/// The offsets `(steps along x, steps along y)` of the points of a line whose
/// spans are `a` horizontally and `b` vertically: a straight run when one span
/// is zero; otherwise the stepping walk, followed by the far corner `(a, b)`
/// where the walk stops short of it.
pub open spec fn line_offsets(a: int, b: int) -> Seq<(int, int)> {
    if a == 0 {
        Seq::new((b + 1) as nat, |j: int| (0int, j))
    } else if b == 0 {
        Seq::new((a + 1) as nat, |i: int| (i, 0int))
    } else {
        let w = walk(a, b, 0, 0, 0);
        if w.last() == (a, b) {
            w
        } else {
            w.push((a, b))
        }
    }
}

/// Whether the stepping walk from the state `(i, j, d)` keeps its arithmetic
/// in `i32`: the error term `a - b + d` after a horizontal step, and after a
/// vertical step, at every state from which the walk goes on.
pub open spec fn walk_fits(a: int, b: int, i: int, j: int, d: int) -> bool
    decreases (a - i) + (b - j),
{
    if !(0 <= i <= a && 0 <= j <= b) {
        true
    } else if steps_x(a, d) && i == a {
        true
    } else {
        let e = if steps_x(a, d) { a - b + d - b } else { a - b + d };
        &&& i32::MIN <= e
        &&& if steps_y(b, d) && j == b {
            true
        } else {
            &&& (steps_y(b, d) ==> e + a <= i32::MAX)
            &&& walk_fits(
                a,
                b,
                if steps_x(a, d) { i + 1 } else { i },
                if steps_y(b, d) { j + 1 } else { j },
                d - (if steps_x(a, d) { b } else { 0 }) + (if steps_y(b, d) { a } else { 0 }),
            )
        }
    }
}

pub open spec fn abs(v: int) -> int {
    if v < 0 {
        -v
    } else {
        v
    }
}

/// The coordinate `n` steps from `from` toward `to`.
pub open spec fn step_toward(from: int, to: int, n: int) -> int {
    if from < to {
        from + n
    } else {
        from - n
    }
}

/// The window point at offset `o` on the way from `p1` toward `p2`.
pub open spec fn point_at(p1: Point, p2: Point, o: (int, int)) -> (int, int) {
    (step_toward(p1.x as int, p2.x as int, o.0), step_toward(p1.y as int, p2.y as int, o.1))
}

/// The points of the line from `p1` toward `p2`, in order.
pub open spec fn line_points(p1: Point, p2: Point) -> Seq<(int, int)> {
    let offs = line_offsets(abs(p2.x - p1.x), abs(p2.y - p1.y));
    Seq::new(offs.len(), |k: int| point_at(p1, p2, offs[k]))
}

/// A window point taken as a canvas point, each coordinate reinterpreted as
/// unsigned.
pub open spec fn as_canvas_point(q: (int, int)) -> UPoint {
    UPoint { x: (q.0 as i32) as u32, y: (q.1 as i32) as u32 }
}

/// Whether a line between the two points can be drawn without overflow: a
/// straight line always can, a slanted one when its walk keeps its arithmetic
/// in `i32`.
pub open spec fn line_fits(p1: Point, p2: Point) -> bool {
    p1.x == p2.x || p1.y == p2.y || walk_fits(abs(p2.x - p1.x), abs(p2.y - p1.y), 0, 0, 0)
}

/// Whether the window point `q` lies in `rect` once clamped as a `Point` is.
pub open spec fn clamped_inside(q: (int, int), rect: IntRect) -> bool {
    let x = clamp_position(q.0);
    let y = clamp_position(q.1);
    x >= rect.x1 && y >= rect.y1 && x < rect.x2 && y < rect.y2
}

/// The window point `q` taken relative to the top left corner of `rect`.
pub open spec fn relative_to(q: (int, int), rect: IntRect) -> UPoint {
    UPoint { x: ((q.0 - rect.x1) as i32) as u32, y: ((q.1 - rect.y1) as i32) as u32 }
}

/// The points of `s` that lie in `rect`, relative to its top left corner.
pub open spec fn kept_in_rect(s: Seq<(int, int)>, rect: IntRect) -> Seq<UPoint> {
    s.filter(|q: (int, int)| clamped_inside(q, rect)).map_values(|q: (int, int)| relative_to(q, rect))
}

/// The points of the line from `p1` to `p2` that lie in `rect`, relative to
/// its top left corner.
pub open spec fn line_points_in_rect(p1: Point, p2: Point, rect: IntRect) -> Seq<UPoint> {
    kept_in_rect(line_points(p1, p2), rect)
}

proof fn lemma_kept_in_rect_push(s: Seq<(int, int)>, q: (int, int), rect: IntRect)
    ensures
        kept_in_rect(s.push(q), rect) == if clamped_inside(q, rect) {
            kept_in_rect(s, rect).push(relative_to(q, rect))
        } else {
            kept_in_rect(s, rect)
        },
{
    let p = |q: (int, int)| clamped_inside(q, rect);
    let f = |q: (int, int)| relative_to(q, rect);
    s.lemma_filter_push(q, p);
    if clamped_inside(q, rect) {
        s.filter(p).lemma_push_map_commute(f, q);
    }
}

/// Unfolds one state of the walk that does not stop there.
proof fn lemma_walk_unfold(a: int, b: int, i: int, j: int, d: int)
    requires
        0 <= i <= a,
        0 <= j <= b,
        !(steps_x(a, d) && i == a),
        !(steps_y(b, d) && j == b),
    ensures
        walk(a, b, i, j, d) == seq![(i, j)] + walk(
            a,
            b,
            if steps_x(a, d) { i + 1 } else { i },
            if steps_y(b, d) { j + 1 } else { j },
            d - (if steps_x(a, d) { b } else { 0 }) + (if steps_y(b, d) { a } else { 0 }),
        ),
{
}

/// The range that `d` keeps along the walk: `[0, a]` when the horizontal span
/// is the larger, `[-b, 0]` otherwise.
pub open spec fn walk_bounds(a: int, b: int, d: int) -> bool {
    if a >= b {
        0 <= d <= a
    } else {
        -b <= d <= 0
    }
}

proof fn lemma_walk_bounds_step(a: int, b: int, d: int)
    requires
        a > 0,
        b > 0,
        walk_bounds(a, b, d),
    ensures
        walk_bounds(
            a,
            b,
            d - (if steps_x(a, d) { b } else { 0 }) + (if steps_y(b, d) { a } else { 0 }),
        ),
{
}

/// Appends to `list` the points of the line from `point1` to `point2`, as
/// canvas points.
pub fn make_line(list: &mut Vec<UPoint>, point1: Point, point2: Point)
    requires
        point1.in_range(),
        point2.in_range(),
        line_fits(point1, point2),
    ensures
        final(list)@ == old(list)@ + line_points(point1, point2).map_values(
            |q: (int, int)| as_canvas_point(q),
        ),
{
    let ghost start = list@;
    let ghost pts = line_points(point1, point2);
    let ghost target = start + pts.map_values(|q: (int, int)| as_canvas_point(q));
    let mut x1 = point1.x;
    let mut y1 = point1.y;
    let x2 = point2.x;
    let y2 = point2.y;
    let sx: i32 = if x1 < x2 { 1 } else { -1 };
    let sy: i32 = if y1 < y2 { 1 } else { -1 };
    let ghost a = abs(x2 - x1);
    let ghost b = abs(y2 - y1);
    let ghost mut n: int = 0;
    // case for vertical line
    if x1 == x2 {
        assert(line_offsets(a, b) =~= Seq::new((b + 1) as nat, |k: int| (0int, k)));
        loop
            invariant_except_break
                0 <= n <= b,
                pts.len() == b + 1,
                y1 == step_toward(point1.y as int, y2 as int, n),
                y2 == step_toward(point1.y as int, y2 as int, b),
                sy == (if point1.y < y2 { 1int } else { -1int }),
                x1 == point1.x,
                x2 == point1.x,
                pts == line_points(point1, point2),
                target == start + pts.map_values(|q: (int, int)| as_canvas_point(q)),
                a == abs(point2.x - point1.x),
                b == abs(point2.y - point1.y),
                x2 == point2.x,
                y2 == point2.y,
                list@ == start + pts.take(n).map_values(|q: (int, int)| as_canvas_point(q)),
            ensures
                list@ == target,
            decreases b - n,
        {
            assert(pts[n] == (x1 as int, y1 as int));
            list.push(UPoint::new(x1 as u32, y1 as u32));
            assert(pts.take(n + 1) =~= pts.take(n).push(pts[n]));
            assert(pts.take(n + 1).map_values(|q: (int, int)| as_canvas_point(q)) =~= pts.take(
                n,
            ).map_values(|q: (int, int)| as_canvas_point(q)).push(as_canvas_point(pts[n])));
            if y1 == y2 {
                assert(pts.take(n + 1) =~= pts);
                break;
            }
            y1 += sy;
            proof {
                n = n + 1;
            }
        }
        return ;
    }
    // case for horizontal line
    if y1 == y2 {
        assert(line_offsets(a, b) =~= Seq::new((a + 1) as nat, |k: int| (k, 0int)));
        loop
            invariant_except_break
                0 <= n <= a,
                pts.len() == a + 1,
                x1 == step_toward(point1.x as int, x2 as int, n),
                x2 == step_toward(point1.x as int, x2 as int, a),
                sx == (if point1.x < x2 { 1int } else { -1int }),
                y1 == point1.y,
                y2 == point1.y,
                x1 != x2 || y1 == y2,
                pts == line_points(point1, point2),
                target == start + pts.map_values(|q: (int, int)| as_canvas_point(q)),
                a == abs(point2.x - point1.x),
                b == abs(point2.y - point1.y),
                x2 == point2.x,
                y2 == point2.y,
                list@ == start + pts.take(n).map_values(|q: (int, int)| as_canvas_point(q)),
            ensures
                list@ == target,
            decreases a - n,
        {
            assert(pts[n] == (x1 as int, y1 as int));
            list.push(UPoint::new(x1 as u32, y1 as u32));
            assert(pts.take(n + 1) =~= pts.take(n).push(pts[n]));
            assert(pts.take(n + 1).map_values(|q: (int, int)| as_canvas_point(q)) =~= pts.take(
                n,
            ).map_values(|q: (int, int)| as_canvas_point(q)).push(as_canvas_point(pts[n])));
            if x1 == x2 {
                assert(pts.take(n + 1) =~= pts);
                break;
            }
            x1 += sx;
            proof {
                n = n + 1;
            }
        }
        return ;
    }
    let dx: i32 = if x2 >= x1 { x2 - x1 } else { x1 - x2 };
    let dy: i32 = -(if y2 >= y1 { y2 - y1 } else { y1 - y2 });
    let mut error: i32 = dy + dx;
    let ghost offs = walk(a, b, 0, 0, 0);
    let ghost wpts = Seq::new(offs.len(), |k: int| point_at(point1, point2, offs[k]));
    let ghost mut i: int = 0;
    let ghost mut j: int = 0;
    let ghost mut d: int = 0;
    let mut last_x: i32 = x1;
    let mut last_y: i32 = y1;
    proof {
        lemma_walk_shape(a, b, 0, 0, 0);
    }
    loop
        invariant_except_break
            a == dx,
            b == -dy,
            0 < a,
            0 < b,
            sx == (if point1.x < x2 { 1int } else { -1int }),
            sy == (if point1.y < y2 { 1int } else { -1int }),
            0 <= i <= a,
            0 <= j <= b,
            walk_fits(a, b, i, j, d),
            error == a - b + d,
            x1 == step_toward(point1.x as int, x2 as int, i),
            y1 == step_toward(point1.y as int, y2 as int, j),
            x2 == step_toward(point1.x as int, x2 as int, a),
            y2 == step_toward(point1.y as int, y2 as int, b),
            0 <= n < offs.len(),
            offs.skip(n) == walk(a, b, i, j, d),
            wpts.len() == offs.len(),
            offs == walk(a, b, 0, 0, 0),
            a == abs(point2.x - point1.x),
            b == abs(point2.y - point1.y),
            x2 == point2.x,
            y2 == point2.y,
            forall|k: int| 0 <= k < wpts.len() ==> #[trigger] wpts[k] == point_at(point1, point2, offs[k]),
            list@ == start + wpts.take(n).map_values(|q: (int, int)| as_canvas_point(q)),
        ensures
            wpts.len() >= 1,
            list@ == start + wpts.map_values(|q: (int, int)| as_canvas_point(q)),
            (last_x as int, last_y as int) == wpts.last(),
        decreases (a - i) + (b - j),
    {
        assert(offs.skip(n)[0] == offs[n]);
        assert(wpts[n] == (x1 as int, y1 as int));
        list.push(UPoint::new(x1 as u32, y1 as u32));
        last_x = x1;
        last_y = y1;
        assert(wpts.take(n + 1) =~= wpts.take(n).push(wpts[n]));
        let e2 = error;
        let ghost xs = steps_x(a, d);
        let ghost ys = steps_y(b, d);
        if e2 >= dy {
            if x1 == x2 {
                assert(offs.skip(n) == seq![(i, j)]);
                assert(wpts.take(n + 1) =~= wpts);
                break;
            }
            error += dy;
            x1 += sx;
        }
        if e2 <= dx {
            if y1 == y2 {
                assert(offs.skip(n) == seq![(i, j)]);
                assert(wpts.take(n + 1) =~= wpts);
                break;
            }
            error += dx;
            y1 += sy;
        }
        proof {
            lemma_walk_unfold(a, b, i, j, d);
            assert(offs.skip(n + 1) =~= offs.skip(n).skip(1));
            if xs {
                i = i + 1;
            }
            if ys {
                j = j + 1;
            }
            d = d - (if xs { b } else { 0 }) + (if ys { a } else { 0 });
            n = n + 1;
        }
    }
    proof {
        lemma_walk_shape(a, b, 0, 0, 0);
        assert(wpts.last() == point_at(point1, point2, offs.last()));
    }
    if !(last_x == x2 && last_y == y2) {
        list.push(UPoint::new(x2 as u32, y2 as u32));
        proof {
            assert(offs.last() != (a, b));
            assert(line_offsets(a, b) == offs.push((a, b)));
            assert(pts =~= wpts.push((x2 as int, y2 as int)));
            wpts.lemma_push_map_commute(|q: (int, int)| as_canvas_point(q), (x2 as int, y2 as int));
        }
    } else {
        proof {
            assert(offs.last() == (a, b));
            assert(pts =~= wpts);
        }
    }
}

/// Appends to `list` the points of the line from `point1` to `point2` that
/// lie in `rect`, each taken relative to the rectangle's top left corner.
pub fn make_line_in_rect(list: &mut Vec<UPoint>, point1: Point, point2: Point, rect: &IntRect)
    requires
        point1.in_range(),
        point2.in_range(),
        line_fits(point1, point2),
        rect.width_fits(),
        rect.height_fits(),
    ensures
        final(list)@ == old(list)@ + line_points_in_rect(point1, point2, *rect),
{
    let ghost start = list@;
    let ghost pts = line_points(point1, point2);
    let ghost target = start + line_points_in_rect(point1, point2, *rect);
    let mut x1 = point1.x;
    let mut y1 = point1.y;
    let x2 = point2.x;
    let y2 = point2.y;
    let sx: i32 = if x1 < x2 { 1 } else { -1 };
    let sy: i32 = if y1 < y2 { 1 } else { -1 };
    let ghost a = abs(x2 - x1);
    let ghost b = abs(y2 - y1);
    let ghost mut n: int = 0;
    // case for vertical line
    if x1 == x2 {
        assert(line_offsets(a, b) =~= Seq::new((b + 1) as nat, |k: int| (0int, k)));
        loop
            invariant_except_break
                0 <= n <= b,
                pts.len() == b + 1,
                y1 == step_toward(point1.y as int, y2 as int, n),
                y2 == step_toward(point1.y as int, y2 as int, b),
                sy == (if point1.y < y2 { 1int } else { -1int }),
                x1 == point1.x,
                x2 == point1.x,
                pts == line_points(point1, point2),
                target == start + line_points_in_rect(point1, point2, *rect),
                point1.in_range(),
                point2.in_range(),
                rect.width_fits(),
                rect.height_fits(),
                a == abs(point2.x - point1.x),
                b == abs(point2.y - point1.y),
                x2 == point2.x,
                y2 == point2.y,
                list@ == start + kept_in_rect(pts.take(n), *rect),
            ensures
                list@ == target,
            decreases b - n,
        {
            assert(pts[n] == (x1 as int, y1 as int));
            assert(pts.take(n + 1) =~= pts.take(n).push(pts[n]));
            proof {
                lemma_kept_in_rect_push(pts.take(n), pts[n], *rect);
            }
            if Point::new(x1, y1).is_inside(rect) {
                list.push(UPoint::new((x1 - rect.x1) as u32, (y1 - rect.y1) as u32));
            }
            if y1 == y2 {
                assert(pts.take(n + 1) =~= pts);
                break;
            }
            y1 += sy;
            proof {
                n = n + 1;
            }
        }
        return ;
    }
    // case for horizontal line
    if y1 == y2 {
        assert(line_offsets(a, b) =~= Seq::new((a + 1) as nat, |k: int| (k, 0int)));
        loop
            invariant_except_break
                0 <= n <= a,
                pts.len() == a + 1,
                x1 == step_toward(point1.x as int, x2 as int, n),
                x2 == step_toward(point1.x as int, x2 as int, a),
                sx == (if point1.x < x2 { 1int } else { -1int }),
                y1 == point1.y,
                y2 == point1.y,
                x1 != x2 || y1 == y2,
                pts == line_points(point1, point2),
                target == start + line_points_in_rect(point1, point2, *rect),
                point1.in_range(),
                point2.in_range(),
                rect.width_fits(),
                rect.height_fits(),
                a == abs(point2.x - point1.x),
                b == abs(point2.y - point1.y),
                x2 == point2.x,
                y2 == point2.y,
                list@ == start + kept_in_rect(pts.take(n), *rect),
            ensures
                list@ == target,
            decreases a - n,
        {
            assert(pts[n] == (x1 as int, y1 as int));
            assert(pts.take(n + 1) =~= pts.take(n).push(pts[n]));
            proof {
                lemma_kept_in_rect_push(pts.take(n), pts[n], *rect);
            }
            if Point::new(x1, y1).is_inside(rect) {
                list.push(UPoint::new((x1 - rect.x1) as u32, (y1 - rect.y1) as u32));
            }
            if x1 == x2 {
                assert(pts.take(n + 1) =~= pts);
                break;
            }
            x1 += sx;
            proof {
                n = n + 1;
            }
        }
        return ;
    }
    let dx: i32 = if x2 >= x1 { x2 - x1 } else { x1 - x2 };
    let dy: i32 = -(if y2 >= y1 { y2 - y1 } else { y1 - y2 });
    let mut error: i32 = dy + dx;
    let ghost offs = walk(a, b, 0, 0, 0);
    let ghost wpts = Seq::new(offs.len(), |k: int| point_at(point1, point2, offs[k]));
    let ghost mut i: int = 0;
    let ghost mut j: int = 0;
    let ghost mut d: int = 0;
    let mut last_x: i32 = x1;
    let mut last_y: i32 = y1;
    proof {
        lemma_walk_shape(a, b, 0, 0, 0);
    }
    loop
        invariant_except_break
            a == dx,
            b == -dy,
            0 < a,
            0 < b,
            sx == (if point1.x < x2 { 1int } else { -1int }),
            sy == (if point1.y < y2 { 1int } else { -1int }),
            0 <= i <= a,
            0 <= j <= b,
            walk_fits(a, b, i, j, d),
            error == a - b + d,
            x1 == step_toward(point1.x as int, x2 as int, i),
            y1 == step_toward(point1.y as int, y2 as int, j),
            x2 == step_toward(point1.x as int, x2 as int, a),
            y2 == step_toward(point1.y as int, y2 as int, b),
            0 <= n < offs.len(),
            offs.skip(n) == walk(a, b, i, j, d),
            wpts.len() == offs.len(),
            point1.in_range(),
            point2.in_range(),
            rect.width_fits(),
            rect.height_fits(),
            offs == walk(a, b, 0, 0, 0),
            a == abs(point2.x - point1.x),
            b == abs(point2.y - point1.y),
            x2 == point2.x,
            y2 == point2.y,
            forall|k: int| 0 <= k < wpts.len() ==> #[trigger] wpts[k] == point_at(point1, point2, offs[k]),
            list@ == start + kept_in_rect(wpts.take(n), *rect),
        ensures
            wpts.len() >= 1,
            list@ == start + kept_in_rect(wpts, *rect),
            (last_x as int, last_y as int) == wpts.last(),
        decreases (a - i) + (b - j),
    {
        assert(offs.skip(n)[0] == offs[n]);
        assert(wpts[n] == (x1 as int, y1 as int));
        assert(wpts.take(n + 1) =~= wpts.take(n).push(wpts[n]));
        proof {
            lemma_kept_in_rect_push(wpts.take(n), wpts[n], *rect);
        }
        if Point::new(x1, y1).is_inside(rect) {
            list.push(UPoint::new((x1 - rect.x1) as u32, (y1 - rect.y1) as u32));
        }
        last_x = x1;
        last_y = y1;
        let e2 = error;
        let ghost xs = steps_x(a, d);
        let ghost ys = steps_y(b, d);
        if e2 >= dy {
            if x1 == x2 {
                assert(offs.skip(n) == seq![(i, j)]);
                assert(wpts.take(n + 1) =~= wpts);
                break;
            }
            error += dy;
            x1 += sx;
        }
        if e2 <= dx {
            if y1 == y2 {
                assert(offs.skip(n) == seq![(i, j)]);
                assert(wpts.take(n + 1) =~= wpts);
                break;
            }
            error += dx;
            y1 += sy;
        }
        proof {
            lemma_walk_unfold(a, b, i, j, d);
            assert(offs.skip(n + 1) =~= offs.skip(n).skip(1));
            if xs {
                i = i + 1;
            }
            if ys {
                j = j + 1;
            }
            d = d - (if xs { b } else { 0 }) + (if ys { a } else { 0 });
            n = n + 1;
        }
    }
    proof {
        lemma_walk_shape(a, b, 0, 0, 0);
        assert(wpts.last() == point_at(point1, point2, offs.last()));
    }
    if !(last_x == x2 && last_y == y2) {
        proof {
            assert(offs.last() != (a, b));
            assert(line_offsets(a, b) == offs.push((a, b)));
            assert(pts =~= wpts.push((x2 as int, y2 as int)));
            lemma_kept_in_rect_push(wpts, (x2 as int, y2 as int), *rect);
        }
        if Point::new(x2, y2).is_inside(rect) {
            list.push(UPoint::new((x2 - rect.x1) as u32, (y2 - rect.y1) as u32));
        }
    } else {
        proof {
            assert(offs.last() == (a, b));
            assert(pts =~= wpts);
        }
    }
}

/// Whether `r` is one step from `q` toward `p2`: each coordinate moves by at
/// most one, toward `p2`, and at least one of them moves.
pub open spec fn is_step_toward(p1: Point, p2: Point, q: (int, int), r: (int, int)) -> bool {
    let sx: int = if p1.x < p2.x { 1 } else { -1 };
    let sy: int = if p1.y < p2.y { 1 } else { -1 };
    &&& (r.0 == q.0 || r.0 == q.0 + sx)
    &&& (r.1 == q.1 || r.1 == q.1 + sy)
    &&& r != q
}

/// Whether `q` lies in the bounding box of `p1` and `p2`.
pub open spec fn in_bounding_box(p1: Point, p2: Point, q: (int, int)) -> bool {
    &&& (p1.x <= q.0 <= p2.x || p2.x <= q.0 <= p1.x)
    &&& (p1.y <= q.1 <= p2.y || p2.y <= q.1 <= p1.y)
}

proof fn lemma_walk_shape(a: int, b: int, i: int, j: int, d: int)
    requires
        0 <= i <= a,
        0 <= j <= b,
    ensures
        walk(a, b, i, j, d).len() >= 1,
        walk(a, b, i, j, d)[0] == (i, j),
        forall|k: int|
            0 <= k < walk(a, b, i, j, d).len() ==> {
                let o = #[trigger] walk(a, b, i, j, d)[k];
                i <= o.0 <= a && j <= o.1 <= b
            },
        forall|k: int|
            0 <= k < walk(a, b, i, j, d).len() - 1 ==> {
                let o = #[trigger] walk(a, b, i, j, d)[k];
                let p = walk(a, b, i, j, d)[k + 1];
                &&& (p.0 == o.0 || p.0 == o.0 + 1)
                &&& (p.1 == o.1 || p.1 == o.1 + 1)
                &&& p != o
            },
    decreases (a - i) + (b - j),
{
    if steps_x(a, d) && i == a {
    } else if steps_y(b, d) && j == b {
    } else {
        let ni = if steps_x(a, d) { i + 1 } else { i };
        let nj = if steps_y(b, d) { j + 1 } else { j };
        let nd = d - (if steps_x(a, d) { b } else { 0 }) + (if steps_y(b, d) { a } else { 0 });
        lemma_walk_unfold(a, b, i, j, d);
        lemma_walk_shape(a, b, ni, nj, nd);
        let w = walk(a, b, i, j, d);
        let r = walk(a, b, ni, nj, nd);
        assert forall|k: int| 0 <= k < w.len() implies {
            let o = #[trigger] w[k];
            i <= o.0 <= a && j <= o.1 <= b
        } by {
            if k > 0 {
                assert(w[k] == r[k - 1]);
            }
        }
        assert forall|k: int| 0 <= k < w.len() - 1 implies {
            let o = #[trigger] w[k];
            let p = w[k + 1];
            &&& (p.0 == o.0 || p.0 == o.0 + 1)
            &&& (p.1 == o.1 || p.1 == o.1 + 1)
            &&& p != o
        } by {
            assert(w[k + 1] == r[k]);
            if k > 0 {
                assert(w[k] == r[k - 1]);
            }
        }
    }
}

proof fn lemma_walk_last_x_major(a: int, b: int, i: int, j: int, d: int)
    requires
        a > b > 0,
        0 <= i <= a - 1,
        0 <= j <= b,
        0 <= d <= a,
        d == a * j - b * i,
    ensures
        walk(a, b, i, j, d).last() == (a - 1, b),
    decreases a - i,
{
    if steps_y(b, d) && j == b {
        assert(i == a - 1) by (nonlinear_arith)
            requires
                d == a * j - b * i,
                j == b,
                d <= b,
                b > 0,
                i <= a - 1,
        ;
    } else {
        if i == a - 1 {
            assert(j == b && d == b) by (nonlinear_arith)
                requires
                    d == a * j - b * i,
                    i == a - 1,
                    d >= 0,
                    j <= b,
                    a > b > 0,
            ;
        }
        let nj = if steps_y(b, d) { j + 1 } else { j };
        let nd = d - b + (if steps_y(b, d) { a } else { 0 });
        lemma_walk_unfold(a, b, i, j, d);
        lemma_walk_bounds_step(a, b, d);
        assert(nd == a * nj - b * (i + 1)) by (nonlinear_arith)
            requires
                d == a * j - b * i,
                nd == d - b + (if nj == j + 1 { a } else { 0 }),
                nj == j || nj == j + 1,
        ;
        if steps_y(b, d) {
            assert(j < b);
        }
        lemma_walk_last_x_major(a, b, i + 1, nj, nd);
        lemma_walk_shape(a, b, i + 1, nj, nd);
    }
}

proof fn lemma_walk_last_y_major(a: int, b: int, i: int, j: int, d: int)
    requires
        0 < a < b,
        0 <= i <= a,
        0 <= j <= b - 1,
        -b <= d <= 0,
        d == a * j - b * i,
    ensures
        walk(a, b, i, j, d).last() == (a, b - 1),
    decreases b - j,
{
    if steps_x(a, d) && i == a {
        assert(j == b - 1) by (nonlinear_arith)
            requires
                d == a * j - b * i,
                i == a,
                d >= -a,
                j <= b - 1,
                a > 0,
        ;
    } else {
        if j == b - 1 {
            assert(i == a && d == -a) by (nonlinear_arith)
                requires
                    d == a * j - b * i,
                    j == b - 1,
                    d <= 0,
                    i <= a,
                    0 < a < b,
            ;
        }
        let ni = if steps_x(a, d) { i + 1 } else { i };
        let nd = d - (if steps_x(a, d) { b } else { 0 }) + a;
        lemma_walk_unfold(a, b, i, j, d);
        lemma_walk_bounds_step(a, b, d);
        assert(nd == a * (j + 1) - b * ni) by (nonlinear_arith)
            requires
                d == a * j - b * i,
                nd == d - (if ni == i + 1 { b } else { 0 }) + a,
                ni == i || ni == i + 1,
        ;
        lemma_walk_last_y_major(a, b, ni, j + 1, nd);
        lemma_walk_shape(a, b, ni, j + 1, nd);
    }
}

proof fn lemma_walk_last_diagonal(a: int, i: int)
    requires
        0 < a,
        0 <= i <= a,
    ensures
        walk(a, a, i, i, 0).last() == (a, a),
    decreases a - i,
{
    if i < a {
        lemma_walk_unfold(a, a, i, i, 0);
        lemma_walk_last_diagonal(a, i + 1);
        lemma_walk_shape(a, a, i + 1, i + 1, 0);
    }
}

proof fn lemma_line_offsets_shape(a: int, b: int)
    requires
        a >= 0,
        b >= 0,
    ensures
        line_offsets(a, b).len() >= 1,
        line_offsets(a, b)[0] == (0int, 0int),
        forall|k: int|
            0 <= k < line_offsets(a, b).len() ==> {
                let o = #[trigger] line_offsets(a, b)[k];
                0 <= o.0 <= a && 0 <= o.1 <= b
            },
        forall|k: int|
            0 <= k < line_offsets(a, b).len() - 1 ==> {
                let o = #[trigger] line_offsets(a, b)[k];
                let p = line_offsets(a, b)[k + 1];
                &&& (p.0 == o.0 || p.0 == o.0 + 1)
                &&& (p.1 == o.1 || p.1 == o.1 + 1)
                &&& p != o
            },
        line_offsets(a, b).last() == (a, b),
{
    if a > 0 && b > 0 {
        let w = walk(a, b, 0, 0, 0);
        lemma_walk_shape(a, b, 0, 0, 0);
        if a > b {
            lemma_walk_last_x_major(a, b, 0, 0, 0);
        } else if a < b {
            lemma_walk_last_y_major(a, b, 0, 0, 0);
        } else {
            lemma_walk_last_diagonal(a, 0);
        }
        if w.last() != (a, b) {
            let lo = line_offsets(a, b);
            assert(lo == w.push((a, b)));
            assert forall|k: int| 0 <= k < lo.len() implies {
                let o = #[trigger] lo[k];
                0 <= o.0 <= a && 0 <= o.1 <= b
            } by {
                if k < w.len() {
                    assert(lo[k] == w[k]);
                }
            }
            assert forall|k: int| 0 <= k < lo.len() - 1 implies {
                let o = #[trigger] lo[k];
                let p = lo[k + 1];
                &&& (p.0 == o.0 || p.0 == o.0 + 1)
                &&& (p.1 == o.1 || p.1 == o.1 + 1)
                &&& p != o
            } by {
                assert(lo[k] == w[k]);
                if k < w.len() - 1 {
                    assert(lo[k + 1] == w[k + 1]);
                }
            }
        }
    }
}

/// A line starts at its first endpoint.
pub proof fn law_line_starts_at_first_point(p1: Point, p2: Point)
    ensures
        line_points(p1, p2).len() >= 1,
        line_points(p1, p2)[0] == (p1.x as int, p1.y as int),
{
    lemma_line_offsets_shape(abs(p2.x - p1.x), abs(p2.y - p1.y));
}

/// Each point of a line is one step from the one before it toward the second
/// endpoint: no coordinate moves by more than one or away from that endpoint,
/// and no point repeats the one before it.
pub proof fn law_line_is_connected(p1: Point, p2: Point)
    ensures
        forall|k: int|
            0 <= k < line_points(p1, p2).len() - 1 ==> is_step_toward(
                p1,
                p2,
                #[trigger] line_points(p1, p2)[k],
                line_points(p1, p2)[k + 1],
            ),
{
    let a = abs(p2.x - p1.x);
    let b = abs(p2.y - p1.y);
    lemma_line_offsets_shape(a, b);
    let offs = line_offsets(a, b);
    let pts = line_points(p1, p2);
    assert forall|k: int| 0 <= k < pts.len() - 1 implies is_step_toward(
        p1,
        p2,
        #[trigger] pts[k],
        pts[k + 1],
    ) by {
        let o = offs[k];
        let p = offs[k + 1];
        assert(pts[k] == point_at(p1, p2, o));
        assert(pts[k + 1] == point_at(p1, p2, p));
    }
}

/// Every point of a line lies in the bounding box of its endpoints.
pub proof fn law_line_stays_in_bounding_box(p1: Point, p2: Point)
    ensures
        forall|k: int|
            0 <= k < line_points(p1, p2).len() ==> in_bounding_box(
                p1,
                p2,
                #[trigger] line_points(p1, p2)[k],
            ),
{
    let a = abs(p2.x - p1.x);
    let b = abs(p2.y - p1.y);
    lemma_line_offsets_shape(a, b);
    let offs = line_offsets(a, b);
    let pts = line_points(p1, p2);
    assert forall|k: int| 0 <= k < pts.len() implies in_bounding_box(p1, p2, #[trigger] pts[k]) by {
        assert(pts[k] == point_at(p1, p2, offs[k]));
    }
}

/// A line ends at its second endpoint.
pub proof fn law_line_end(p1: Point, p2: Point)
    ensures
        line_points(p1, p2).last() == (p2.x as int, p2.y as int),
{
    let a = abs(p2.x - p1.x);
    let b = abs(p2.y - p1.y);
    lemma_line_offsets_shape(a, b);
    let offs = line_offsets(a, b);
    let pts = line_points(p1, p2);
    assert(pts.last() == point_at(p1, p2, offs.last()));
}

/// Tells whether `line_fits(*p1, *p2)`, by running the walk's arithmetic in
/// `i64`.
pub fn line_fits_check(p1: &Point, p2: &Point) -> (r: bool)
    requires
        p1.in_range(),
        p2.in_range(),
    ensures
        r == line_fits(*p1, *p2),
{
    if p1.x == p2.x || p1.y == p2.y {
        return true;
    }
    let a: i64 = if p2.x >= p1.x { p2.x as i64 - p1.x as i64 } else { p1.x as i64 - p2.x as i64 };
    let b: i64 = if p2.y >= p1.y { p2.y as i64 - p1.y as i64 } else { p1.y as i64 - p2.y as i64 };
    let mut i: i64 = 0;
    let mut j: i64 = 0;
    let mut d: i64 = 0;
    loop
        invariant
            a == abs(p2.x - p1.x),
            b == abs(p2.y - p1.y),
            0 < a < 0x8000_0000,
            0 < b < 0x8000_0000,
            0 <= i <= a,
            0 <= j <= b,
            walk_bounds(a as int, b as int, d as int),
            walk_fits(a as int, b as int, 0, 0, 0) == walk_fits(a as int, b as int, i as int, j as int, d as int),
        decreases (a - i) + (b - j),
    {
        let xs = d >= -a;
        let ys = d <= b;
        if xs && i == a {
            return true;
        }
        let e: i64 = if xs { a - b + d - b } else { a - b + d };
        if e < i32::MIN as i64 {
            return false;
        }
        if ys && j == b {
            return true;
        }
        if ys && e + a > i32::MAX as i64 {
            return false;
        }
        proof {
            lemma_walk_bounds_step(a as int, b as int, d as int);
        }
        if xs {
            i = i + 1;
        }
        if ys {
            j = j + 1;
        }
        d = d - (if xs { b } else { 0 }) + (if ys { a } else { 0 });
    }
}

} // verus!
