use vstd::prelude::*;

verus! {

/// The largest coordinate that a `Point` or a `Rect` position can hold (`i32::MAX / 2`).
pub const COORD_MAX: i32 = 1073741823i32;

/// The smallest coordinate that a `Point` or a `Rect` position can hold (`i32::MIN / 2`).
pub const COORD_MIN: i32 = -1073741824i32;

/// Clamps a position into `[COORD_MIN, COORD_MAX]`, as window points and
/// rectangles do.
pub open spec fn clamp_position(v: int) -> int {
    if v > COORD_MAX {
        COORD_MAX as int
    } else if v < COORD_MIN {
        COORD_MIN as int
    } else {
        v
    }
}

/// Clamps a rectangle size into `[1, COORD_MAX]`: an empty size becomes 1.
pub open spec fn clamp_size(v: int) -> int {
    if v == 0 {
        1
    } else if v > COORD_MAX {
        COORD_MAX as int
    } else {
        v
    }
}

fn clamp_position_exec(v: i32) -> (r: i32)
    ensures
        r == clamp_position(v as int),
{
    if v > COORD_MAX {
        COORD_MAX
    } else if v < COORD_MIN {
        COORD_MIN
    } else {
        v
    }
}

fn clamp_size_exec(v: u32) -> (r: u32)
    ensures
        r == clamp_size(v as int),
{
    if v == 0 {
        1
    } else if v > 1073741823u32 {
        1073741823u32
    } else {
        v
    }
}

/// A point in window coordinates.
#[derive(Clone, Copy, PartialEq, Eq, Structural, Debug)]
pub struct Point {
    pub x: i32,
    pub y: i32,
}

impl Point {
    /// Whether both coordinates lie in `[COORD_MIN, COORD_MAX]`, as for
    /// every point that `Point::new` makes.
    pub open spec fn in_range(self) -> bool {
        &&& COORD_MIN <= self.x <= COORD_MAX
        &&& COORD_MIN <= self.y <= COORD_MAX
    }

    /// Makes a point, clamping each coordinate into `[COORD_MIN, COORD_MAX]`.
    pub fn new(x: i32, y: i32) -> (p: Point)
        ensures
            p.x == clamp_position(x as int),
            p.y == clamp_position(y as int),
            p.in_range(),
    {
        Point { x: clamp_position_exec(x), y: clamp_position_exec(y) }
    }

    /// Whether the point lies in `square`, its right and bottom edges excluded.
    pub fn is_inside(&self, square: &IntRect) -> (inside: bool)
        ensures
            inside == (self.x >= square.x1 && self.y >= square.y1 && self.x < square.x2 && self.y
                < square.y2),
    {
        self.x >= square.x1 && self.y >= square.y1 && self.x < square.x2 && self.y < square.y2
    }
}

/// A point on the canvas, in canvas pixel coordinates.
#[derive(Clone, Copy, PartialEq, Eq, Structural, Debug, Hash)]
pub struct UPoint {
    pub x: u32,
    pub y: u32,
}

impl UPoint {
    pub fn new(x: u32, y: u32) -> (p: UPoint)
        ensures
            p.x == x,
            p.y == y,
    {
        UPoint { x, y }
    }

    /// The canvas test of a canvas point against a rectangle. It compares the
    /// horizontal coordinate with the left edge on both sides, so no point
    /// passes it.
    pub fn is_inside(&self, square: &IntRect) -> (inside: bool)
        ensures
            inside == ((self.x as i32) >= square.x1 && (self.y as i32) >= square.y1 && (self.x as i32)
                < square.x1 && (self.y as i32) < square.y2),
            !inside,
    {
        (self.x as i32) >= square.x1 && (self.y as i32) >= square.y1 && (self.x as i32) < square.x1
            && (self.y as i32) < square.y2
    }
}

/// A rectangle given by its left, top, right and bottom edges.
#[derive(Clone, Copy, PartialEq, Eq, Structural, Debug)]
pub struct IntRect {
    pub x1: i32,
    pub y1: i32,
    pub x2: i32,
    pub y2: i32,
}

/// A rectangle given by its position and size, with the position clamped into
/// `[COORD_MIN, COORD_MAX]` and the size into `[1, COORD_MAX]`.
#[derive(Clone, Copy, PartialEq, Eq, Structural, Debug)]
pub struct Rect {
    pub x: i32,
    pub y: i32,
    pub w: u32,
    pub h: u32,
}

impl Rect {
    pub fn new(x: i32, y: i32, width: u32, height: u32) -> (r: Rect)
        ensures
            r.x == clamp_position(x as int),
            r.y == clamp_position(y as int),
            r.w == clamp_size(width as int),
            r.h == clamp_size(height as int),
    {
        Rect {
            x: clamp_position_exec(x),
            y: clamp_position_exec(y),
            w: clamp_size_exec(width),
            h: clamp_size_exec(height),
        }
    }
}

impl IntRect {
    /// Whether the horizontal extent `x2 - x1` fits in an `i32`.
    pub open spec fn width_fits(self) -> bool {
        i32::MIN <= self.x2 - self.x1 <= i32::MAX
    }

    /// Whether the vertical extent `y2 - y1` fits in an `i32`.
    pub open spec fn height_fits(self) -> bool {
        i32::MIN <= self.y2 - self.y1 <= i32::MAX
    }

    /// The width as an unsigned number: `x2 - x1`, wrapped into a `u32`.
    pub open spec fn spec_width(self) -> u32 {
        ((self.x2 - self.x1) as i32) as u32
    }

    /// The height as an unsigned number: `y2 - y1`, wrapped into a `u32`.
    pub open spec fn spec_height(self) -> u32 {
        ((self.y2 - self.y1) as i32) as u32
    }

    /// Moves the rectangle by `(x, y)`.
    pub fn shift(&mut self, x: i32, y: i32)
        requires
            i32::MIN <= old(self).x1 + x <= i32::MAX,
            i32::MIN <= old(self).x2 + x <= i32::MAX,
            i32::MIN <= old(self).y1 + y <= i32::MAX,
            i32::MIN <= old(self).y2 + y <= i32::MAX,
        ensures
            final(self).x1 == old(self).x1 + x,
            final(self).x2 == old(self).x2 + x,
            final(self).y1 == old(self).y1 + y,
            final(self).y2 == old(self).y2 + y,
    {
        self.x1 += x;
        self.x2 += x;
        self.y1 += y;
        self.y2 += y;
    }

    pub fn width(&self) -> (w: u32)
        requires
            self.width_fits(),
        ensures
            w == self.spec_width(),
    {
        (self.x2 - self.x1) as u32
    }

    pub fn height(&self) -> (h: u32)
        requires
            self.height_fits(),
        ensures
            h == self.spec_height(),
    {
        (self.y2 - self.y1) as u32
    }

    /// The centre, each coordinate being the near edge plus half the extent,
    /// the half rounded toward zero.
    pub fn centre(&self) -> (c: (i32, i32))
        requires
            self.width_fits(),
            self.height_fits(),
            i32::MIN <= self.x1 + half_toward_zero(self.x2 - self.x1) <= i32::MAX,
            i32::MIN <= self.y1 + half_toward_zero(self.y2 - self.y1) <= i32::MAX,
        ensures
            c.0 == self.x1 + half_toward_zero(self.x2 - self.x1),
            c.1 == self.y1 + half_toward_zero(self.y2 - self.y1),
    {
        let w = self.width();
        let h = self.height();
        let ghost dx: i32 = (self.x2 - self.x1) as i32;
        let ghost dy: i32 = (self.y2 - self.y1) as i32;
        assert((dx as u32) as i32 == dx) by (bit_vector);
        assert((dy as u32) as i32 == dy) by (bit_vector);
        let x = self.x1 + w as i32 / 2;
        let y = self.y1 + h as i32 / 2;
        (x, y)
    }

    /// The rectangle as position and size, both clamped as `Rect::new` does.
    pub fn to_rect(&self) -> (r: Rect)
        requires
            self.width_fits(),
            self.height_fits(),
        ensures
            r.x == clamp_position(self.x1 as int),
            r.y == clamp_position(self.y1 as int),
            r.w == clamp_size(self.spec_width() as int),
            r.h == clamp_size(self.spec_height() as int),
    {
        Rect::new(self.x1, self.y1, self.width(), self.height())
    }
}

/// Half of `v`, rounded toward zero.
pub open spec fn half_toward_zero(v: int) -> int {
    if v >= 0 {
        v / 2
    } else {
        -((-v) / 2)
    }
}

/// The width of `rect`.
pub fn get_width(rect: &IntRect) -> (w: u32)
    requires
        rect.width_fits(),
    ensures
        w == rect.spec_width(),
{
    (rect.x2 - rect.x1) as u32
}

} // verus!
