use vstd::prelude::*;
use crate::color::Color;
use crate::geometry::{IntRect, UPoint};

verus! {

/// `data` after writing the channels of `c` at `index` onward, in red, green,
/// blue, alpha order; the channels that would fall past the end are dropped.
pub open spec fn paint(data: Seq<u8>, index: int, c: Color) -> Seq<u8> {
    Seq::new(
        data.len(),
        |i: int|
            if index <= i < index + 4 {
                c.channel(i - index)
            } else {
                data[i]
            },
    )
}

/// The colour stored at `index` onward, or none when its four bytes do not
/// all lie in `data`.
pub open spec fn color_at(data: Seq<u8>, index: int) -> Option<Color> {
    if 0 <= index && index + 3 < data.len() {
        Some(Color { r: data[index], g: data[index + 1], b: data[index + 2], a: data[index + 3] })
    } else {
        None
    }
}

/// The byte offset of `p` in a buffer of four bytes per pixel whose rows are
/// `width` pixels long.
pub open spec fn point_index(p: UPoint, width: int) -> int {
    (p.x + p.y * width) * 4
}

/// Writes the channels of `color` into `data` at `index` onward, skipping the
/// bytes that lie past the end.
pub fn set_color_at_index(index: usize, data: &mut [u8], color: &Color)
    requires
        index + 3 <= usize::MAX,
    ensures
        final(data)@ == paint(old(data)@, index as int, *color),
{
    if index < data.len() {
        data[index] = color.r;
    }
    if index + 1 < data.len() {
        data[index + 1] = color.g;
    }
    if index + 2 < data.len() {
        data[index + 2] = color.b;
    }
    if index + 3 < data.len() {
        data[index + 3] = color.a;
    }
    assert(data@ =~= paint(old(data)@, index as int, *color));
}

/// Reads the colour stored at `index` onward.
pub fn get_color_at_index(index: usize, data: &[u8]) -> (c: Option<Color>)
    ensures
        c == color_at(data@, index as int),
{
    if index < data.len() && index + 1 < data.len() && index + 2 < data.len() && index + 3
        < data.len() {
        Some(Color::rgba(data[index], data[index + 1], data[index + 2], data[index + 3]))
    } else {
        None
    }
}

/// A pixel: a canvas point and its colour.
#[derive(Clone, Copy, PartialEq, Eq, Structural, Debug)]
pub struct Pixel {
    pub color: Color,
    pub point: UPoint,
}

impl Pixel {
    pub fn new(color: Color, point: UPoint) -> (p: Pixel)
        ensures
            p == (Pixel { color, point }),
    {
        Pixel { color, point }
    }
}

/// Computes `point_index(point, width)`.
pub fn index_of_point(point: &UPoint, width: usize) -> (index: usize)
    requires
        point_index(*point, width as int) + 3 <= usize::MAX,
    ensures
        index == point_index(*point, width as int),
{
    (point.x as usize + point.y as usize * width) * 4
}

/// Draws `color` at `point` into a buffer whose rows are `width` pixels long.
pub fn draw_pixel_at(data: &mut [u8], point: &UPoint, color: &Color, width: usize)
    requires
        point_index(*point, width as int) + 3 <= usize::MAX,
    ensures
        final(data)@ == paint(old(data)@, point_index(*point, width as int), *color),
{
    let index: usize = index_of_point(point, width);
    set_color_at_index(index, data, color);
}

/// Draws `pixel` into a buffer whose rows are `width` pixels long.
pub fn draw_pixel(data: &mut [u8], pixel: &Pixel, width: usize)
    requires
        point_index(pixel.point, width as int) + 3 <= usize::MAX,
    ensures
        final(data)@ == paint(old(data)@, point_index(pixel.point, width as int), pixel.color),
{
    draw_pixel_at(data, &pixel.point, &pixel.color, width);
}

/// Erases `point` to transparent black in a buffer whose rows are `width`
/// pixels long.
pub fn erase_point(data: &mut [u8], point: &UPoint, width: usize)
    requires
        point_index(*point, width as int) + 3 <= usize::MAX,
    ensures
        final(data)@ == paint(old(data)@, point_index(*point, width as int), Color::spec_transparent()),
{
    draw_pixel_at(data, point, &Color::transparent(), width);
}

/// The canvas: its bounds in window coordinates and its pixels, four bytes
/// each, row by row.
pub struct WhiteboardData {
    pub canvas_bounds: IntRect,
    pub data: Vec<u8>,
}

impl WhiteboardData {
    /// The width of the canvas as a count of pixels.
    pub open spec fn spec_width(&self) -> int {
        self.canvas_bounds.spec_width() as int
    }

    /// The byte offset of `point` in the canvas.
    pub fn get_index_of_point(&self, point: &UPoint) -> (index: usize)
        requires
            self.canvas_bounds.width_fits(),
            point_index(*point, self.spec_width()) + 3 <= usize::MAX,
        ensures
            index == point_index(*point, self.spec_width()),
    {
        (point.x as usize + (point.y as usize * self.canvas_bounds.width() as usize)) * 4
    }

    /// Draws `color` at `point` on the canvas.
    pub fn draw_pixel(&mut self, point: &UPoint, color: &Color)
        requires
            old(self).canvas_bounds.width_fits(),
            point_index(*point, old(self).spec_width()) + 3 <= usize::MAX,
        ensures
            final(self).canvas_bounds == old(self).canvas_bounds,
            final(self).data@ == paint(old(self).data@, point_index(*point, old(self).spec_width()), *color),
    {
        let index = self.get_index_of_point(point);
        set_color_at_index(index, self.data.as_mut_slice(), color);
    }

    /// Draws `pixel` on the canvas.
    pub fn draw(&mut self, pixel: &Pixel)
        requires
            old(self).canvas_bounds.width_fits(),
            point_index(pixel.point, old(self).spec_width()) + 3 <= usize::MAX,
        ensures
            final(self).canvas_bounds == old(self).canvas_bounds,
            final(self).data@ == paint(
                old(self).data@,
                point_index(pixel.point, old(self).spec_width()),
                pixel.color,
            ),
    {
        let index = self.get_index_of_point(&pixel.point);
        set_color_at_index(index, self.data.as_mut_slice(), &pixel.color);
    }

    /// Erases `point` on the canvas to transparent black.
    pub fn erase_point(&mut self, point: &UPoint)
        requires
            old(self).canvas_bounds.width_fits(),
            point_index(*point, old(self).spec_width()) + 3 <= usize::MAX,
        ensures
            final(self).canvas_bounds == old(self).canvas_bounds,
            final(self).data@ == paint(
                old(self).data@,
                point_index(*point, old(self).spec_width()),
                Color::spec_transparent(),
            ),
    {
        self.draw_pixel(point, &Color::transparent());
    }
}

} // verus!
