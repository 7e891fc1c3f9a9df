use vstd::prelude::*;
use crate::color::Color;
use crate::geometry::{IntRect, UPoint};
use crate::canvas::{Pixel, WhiteboardData, paint, point_index, color_at, get_color_at_index, draw_pixel, erase_point};
use crate::pixels::{Pixels, Points, point_key, keys_of, lemma_point_key_inverse, pixel_keys};
use crate::painting::{
    paint_pixels, erase_points, key_on_canvas, keys_on_canvas, paint_map, erase_keys,
    lemma_listing_paints_map, lemma_listing_erases_keys,
};

verus! {

/// One stroke of the history: for the pencil, the colours it replaced and
/// the colours it drew; for the eraser, the points it erased and the colours
/// they had.
#[allow(inconsistent_fields)]
pub enum Change {
    Pencil { old: Pixels, new: Pixels },
    Eraser { new: Points, old: Pixels },
}

impl Change {
    /// The colours that undoing the stroke puts back.
    pub open spec fn old_pixels(self) -> Map<u64, Color> {
        match self {
            Change::Pencil { old, .. } => old@,
            Change::Eraser { old, .. } => old@,
        }
    }

    /// The keys of the points that the stroke changes.
    pub open spec fn new_keys(self) -> Set<u64> {
        match self {
            Change::Pencil { new, .. } => new@.dom(),
            Change::Eraser { new, .. } => new@,
        }
    }

    /// Whether every point of the stroke lies on a canvas of `w` by `h` pixels.
    pub open spec fn on_canvas(self, w: int, h: int) -> bool {
        &&& keys_on_canvas(self.old_pixels().dom(), w, h)
        &&& keys_on_canvas(self.new_keys(), w, h)
    }
}

/// The whiteboard: the canvas, its background colour, and the history of
/// strokes with the count of those in effect.
pub struct Whiteboard {
    pub data: WhiteboardData,
    pub bgcolor: Color,
    pub changes: Vec<Change>,
    pub changes_index: usize,
}

pub proof fn lemma_width_value(r: IntRect)
    requires
        r.width_fits(),
        r.height_fits(),
        r.x1 <= r.x2,
        r.y1 <= r.y2,
    ensures
        r.spec_width() == r.x2 - r.x1,
        r.spec_height() == r.y2 - r.y1,
{
    let dx: i32 = (r.x2 - r.x1) as i32;
    let dy: i32 = (r.y2 - r.y1) as i32;
    assert(dx >= 0 ==> (dx as u32) as int == dx as int) by (bit_vector);
    assert(dy >= 0 ==> (dy as u32) as int == dy as int) by (bit_vector);
}

/// A point on a canvas of `w` by `h` pixels has its four bytes in a buffer of
/// `w * h * 4` bytes.
pub proof fn lemma_index_on_canvas(p: UPoint, w: int, h: int)
    requires
        p.x < w,
        p.y < h,
    ensures
        point_index(p, w) >= 0,
        point_index(p, w) + 4 <= w * h * 4,
{
    assert(p.x + p.y * w <= w * h - 1) by (nonlinear_arith)
        requires
            0 <= p.x < w,
            0 <= p.y < h,
    ;
    assert(p.y * w >= 0) by (nonlinear_arith)
        requires
            0 <= p.y,
            0 <= p.x < w,
    ;
}

/// What a stroke does to the bytes `d` of a canvas whose rows are `w` pixels
/// long: a pencil stroke draws its colours, an eraser stroke erases its
/// points.
pub open spec fn stroke_applied(c: Change, d: Seq<u8>, w: int) -> Seq<u8> {
    match c {
        Change::Pencil { new, .. } => paint_map(d, w, new@),
        Change::Eraser { new, .. } => erase_keys(d, w, new@),
    }
}

/// What `undo` does: the last stroke in effect, if any, has its replaced
/// colours drawn back on the canvas and into the texture, and the count of
/// strokes in effect goes down by one.
pub open spec fn undo_result(wb: Whiteboard, tex: Seq<u8>, wb2: Whiteboard, tex2: Seq<u8>) -> bool {
    &&& wb2.data.canvas_bounds == wb.data.canvas_bounds
    &&& wb2.bgcolor == wb.bgcolor
    &&& wb2.changes == wb.changes
    &&& wb.changes_index == 0 ==> {
        &&& wb2.changes_index == 0
        &&& wb2.data.data@ == wb.data.data@
        &&& tex2 == tex
    }
    &&& wb.changes_index > 0 ==> {
        let old_pixels = wb.changes@[wb.changes_index - 1].old_pixels();
        &&& wb2.changes_index == wb.changes_index - 1
        &&& wb2.data.data@ == paint_map(wb.data.data@, wb.spec_width(), old_pixels)
        &&& tex2 == paint_map(tex, wb.spec_width(), old_pixels)
    }
}

/// What `redo` does: the first stroke not in effect, if any, is applied again
/// on the canvas and in the texture, and the count of strokes in effect goes
/// up by one.
pub open spec fn redo_result(wb: Whiteboard, tex: Seq<u8>, wb2: Whiteboard, tex2: Seq<u8>) -> bool {
    &&& wb2.data.canvas_bounds == wb.data.canvas_bounds
    &&& wb2.bgcolor == wb.bgcolor
    &&& wb2.changes == wb.changes
    &&& wb.changes_index == wb.changes@.len() ==> {
        &&& wb2.changes_index == wb.changes_index
        &&& wb2.data.data@ == wb.data.data@
        &&& tex2 == tex
    }
    &&& wb.changes_index < wb.changes@.len() ==> {
        let c = wb.changes@[wb.changes_index as int];
        &&& wb2.changes_index == wb.changes_index + 1
        &&& wb2.data.data@ == stroke_applied(c, wb.data.data@, wb.spec_width())
        &&& tex2 == stroke_applied(c, tex, wb.spec_width())
    }
}

/// What `commit` does: the stroke is applied on the canvas, enters the
/// history as `committed_history` says, and the count of strokes in effect
/// goes up by one.
pub open spec fn commit_result(wb: Whiteboard, change: Change, wb2: Whiteboard) -> bool {
    &&& wb2.data.canvas_bounds == wb.data.canvas_bounds
    &&& wb2.bgcolor == wb.bgcolor
    &&& wb2.changes@ == committed_history(wb.changes@, wb.changes_index as int, change)
    &&& wb2.changes_index == wb.changes_index + 1
    &&& wb2.data.data@ == stroke_applied(change, wb.data.data@, wb.spec_width())
}

impl Whiteboard {
    pub open spec fn spec_width(&self) -> int {
        self.data.canvas_bounds.spec_width() as int
    }

    pub open spec fn spec_height(&self) -> int {
        self.data.canvas_bounds.spec_height() as int
    }

    /// The whiteboard's invariant: the canvas has a non-negative size that
    /// fits in `i32`, its buffer holds four bytes for each of its pixels, the
    /// count of strokes in effect does not exceed the history, and every
    /// stroke of the history lies on the canvas.
    pub open spec fn wf(&self) -> bool {
        let b = self.data.canvas_bounds;
        &&& b.width_fits()
        &&& b.height_fits()
        &&& b.x1 <= b.x2
        &&& b.y1 <= b.y2
        &&& self.data.data@.len() == self.spec_width() * self.spec_height() * 4
        &&& self.changes_index <= self.changes@.len()
        &&& forall|i: int|
            0 <= i < self.changes@.len() ==> (#[trigger] self.changes@[i]).on_canvas(
                self.spec_width(),
                self.spec_height(),
            )
    }

    pub fn get_index_of_point(&self, point: &UPoint) -> (index: usize)
        requires
            self.data.canvas_bounds.width_fits(),
            point_index(*point, self.spec_width()) + 3 <= usize::MAX,
        ensures
            index == point_index(*point, self.spec_width()),
    {
        self.data.get_index_of_point(point)
    }

    /// The colour of the canvas at `point`, or none when its bytes do not all
    /// lie in the canvas buffer.
    pub fn get_color_at_point(&self, point: &UPoint) -> (c: Option<Color>)
        requires
            self.data.canvas_bounds.width_fits(),
            point_index(*point, self.spec_width()) + 3 <= usize::MAX,
        ensures
            c == color_at(self.data.data@, point_index(*point, self.spec_width())),
    {
        get_color_at_index(self.get_index_of_point(point), self.data.data.as_slice())
    }

    pub fn width(&self) -> (w: u32)
        requires
            self.data.canvas_bounds.width_fits(),
        ensures
            w == self.spec_width(),
    {
        self.data.canvas_bounds.width()
    }

    pub fn height(&self) -> (h: u32)
        requires
            self.data.canvas_bounds.height_fits(),
        ensures
            h == self.spec_height(),
    {
        self.data.canvas_bounds.height()
    }

    pub fn x1(&self) -> (v: i32)
        ensures
            v == self.data.canvas_bounds.x1,
    {
        self.data.canvas_bounds.x1
    }

    pub fn x2(&self) -> (v: i32)
        ensures
            v == self.data.canvas_bounds.x2,
    {
        self.data.canvas_bounds.x2
    }

    pub fn y1(&self) -> (v: i32)
        ensures
            v == self.data.canvas_bounds.y1,
    {
        self.data.canvas_bounds.y1
    }

    pub fn y2(&self) -> (v: i32)
        ensures
            v == self.data.canvas_bounds.y2,
    {
        self.data.canvas_bounds.y2
    }

    /// Draws `color` at `point` on the canvas.
    pub fn draw_pixel(&mut self, point: &UPoint, color: &Color)
        requires
            old(self).data.canvas_bounds.width_fits(),
            point_index(*point, old(self).spec_width()) + 3 <= usize::MAX,
        ensures
            final(self).data.canvas_bounds == old(self).data.canvas_bounds,
            final(self).data.data@ == paint(
                old(self).data.data@,
                point_index(*point, old(self).spec_width()),
                *color,
            ),
            final(self).bgcolor == old(self).bgcolor,
            final(self).changes == old(self).changes,
            final(self).changes_index == old(self).changes_index,
    {
        self.data.draw_pixel(point, color);
    }

    /// Draws `pixel` on the canvas.
    pub fn draw(&mut self, pixel: &Pixel)
        requires
            old(self).data.canvas_bounds.width_fits(),
            point_index(pixel.point, old(self).spec_width()) + 3 <= usize::MAX,
        ensures
            final(self).data.canvas_bounds == old(self).data.canvas_bounds,
            final(self).data.data@ == paint(
                old(self).data.data@,
                point_index(pixel.point, old(self).spec_width()),
                pixel.color,
            ),
            final(self).bgcolor == old(self).bgcolor,
            final(self).changes == old(self).changes,
            final(self).changes_index == old(self).changes_index,
    {
        self.data.draw(pixel);
    }

    /// Erases `point` on the canvas to transparent black.
    pub fn erase_point(&mut self, point: &UPoint)
        requires
            old(self).data.canvas_bounds.width_fits(),
            point_index(*point, old(self).spec_width()) + 3 <= usize::MAX,
        ensures
            final(self).data.canvas_bounds == old(self).data.canvas_bounds,
            final(self).data.data@ == paint(
                old(self).data.data@,
                point_index(*point, old(self).spec_width()),
                Color::spec_transparent(),
            ),
            final(self).bgcolor == old(self).bgcolor,
            final(self).changes == old(self).changes,
            final(self).changes_index == old(self).changes_index,
    {
        self.data.erase_point(point);
    }

    /// Draws the pixels of `list` in order on the canvas and into `texture`;
    /// bytes past the end of `texture` are skipped, so an empty one takes none.
    fn draw_pixel_list(&mut self, texture: &mut [u8], list: &Vec<Pixel>)
        requires
            old(self).wf(),
            keys_on_canvas(
                pixel_keys(list@),
                old(self).spec_width(),
                old(self).spec_height(),
            ),
        ensures
            final(self).wf(),
            final(self).data.canvas_bounds == old(self).data.canvas_bounds,
            final(self).data.data@ == paint_pixels(old(self).data.data@, old(self).spec_width(), list@),
            final(texture)@ == paint_pixels(old(texture)@, old(self).spec_width(), list@),
            final(self).bgcolor == old(self).bgcolor,
            final(self).changes == old(self).changes,
            final(self).changes_index == old(self).changes_index,
    {
        let ghost w = self.spec_width();
        let ghost h = self.spec_height();
        let ghost data0 = self.data.data@;
        let ghost tex0 = texture@;
        let ghost keys = pixel_keys(list@);
        // the length of the buffer is a `usize`, which bounds the canvas size
        let _len = self.data.data.len();
        let mut n: usize = 0;
        while n < list.len()
            invariant
                n <= list@.len(),
                w * h * 4 <= usize::MAX,
                self.wf(),
                w == self.spec_width(),
                h == self.spec_height(),
                self.data.canvas_bounds == old(self).data.canvas_bounds,
                self.bgcolor == old(self).bgcolor,
                self.changes == old(self).changes,
                self.changes_index == old(self).changes_index,
                self.data.data@.len() == data0.len(),
                keys == pixel_keys(list@),
                keys_on_canvas(keys, w, h),
                self.data.data@ == paint_pixels(data0, w, list@.take(n as int)),
                texture@ == paint_pixels(tex0, w, list@.take(n as int)),
            decreases list@.len() - n,
        {
            let pixel = &list[n];
            proof {
                assert(keys.contains(point_key(pixel.point)));
                lemma_point_key_inverse(pixel.point, 0);
                lemma_width_value(self.data.canvas_bounds);
                lemma_index_on_canvas(pixel.point, w, h);
            }
            let width = self.width() as usize;
            self.data.draw_pixel(&pixel.point, &pixel.color);
            draw_pixel(texture, pixel, width);
            proof {
                assert(list@.take(n + 1).drop_last() =~= list@.take(n as int));
            }
            n += 1;
        }
        assert(list@.take(list@.len() as int) =~= list@);
    }

    /// Undoes the last stroke in effect, if any: its replaced colours are
    /// drawn back on the canvas and into `texture`, and the count of strokes
    /// in effect goes down by one.
    pub fn undo(&mut self, texture: &mut [u8])
        requires
            old(self).wf(),
        ensures
            final(self).wf(),
            undo_result(*old(self), old(texture)@, *final(self), final(texture)@),
    {
        if self.changes_index != 0 && self.changes_index - 1 < self.changes.len() {
            self.changes_index -= 1;
            let list = match &self.changes[self.changes_index] {
                Change::Pencil { old, .. } => old.to_vec(),
                Change::Eraser { old, .. } => old.to_vec(),
            };
            proof {
                let c = self.changes@[self.changes_index as int];
                assert(c.on_canvas(self.spec_width(), self.spec_height()));
                assert forall|k: u64| #[trigger]
                    pixel_keys(list@).contains(k) implies key_on_canvas(k, self.spec_width(), self.spec_height()) by {
                    let i = choose|i: int| 0 <= i < list@.len() && point_key(list@[i].point) == k;
                    assert(c.old_pixels().dom().contains(point_key(list@[i].point)));
                }
            }
            let ghost d = self.data.data@;
            let ghost t = texture@;
            self.draw_pixel_list(texture, &list);
            proof {
                let c = self.changes@[self.changes_index as int];
                lemma_listing_paints_map(d, self.spec_width(), self.spec_height(), c.old_pixels(), list@);
                lemma_listing_paints_map(t, self.spec_width(), self.spec_height(), c.old_pixels(), list@);
            }
        }
    }
}


impl Whiteboard {
    /// Erases the points of `list` in order on the canvas and in `texture`;
    /// bytes past the end of `texture` are skipped, so an empty one takes none.
    fn erase_point_list(&mut self, texture: &mut [u8], list: &Vec<UPoint>)
        requires
            old(self).wf(),
            keys_on_canvas(keys_of(list@), old(self).spec_width(), old(self).spec_height()),
        ensures
            final(self).wf(),
            final(self).data.canvas_bounds == old(self).data.canvas_bounds,
            final(self).data.data@ == erase_points(old(self).data.data@, old(self).spec_width(), list@),
            final(texture)@ == erase_points(old(texture)@, old(self).spec_width(), list@),
            final(self).bgcolor == old(self).bgcolor,
            final(self).changes == old(self).changes,
            final(self).changes_index == old(self).changes_index,
    {
        let ghost w = self.spec_width();
        let ghost h = self.spec_height();
        let ghost data0 = self.data.data@;
        let ghost tex0 = texture@;
        // the length of the buffer is a `usize`, which bounds the canvas size
        let _len = self.data.data.len();
        let mut n: usize = 0;
        while n < list.len()
            invariant
                n <= list@.len(),
                w * h * 4 <= usize::MAX,
                self.wf(),
                w == self.spec_width(),
                h == self.spec_height(),
                self.data.canvas_bounds == old(self).data.canvas_bounds,
                self.bgcolor == old(self).bgcolor,
                self.changes == old(self).changes,
                self.changes_index == old(self).changes_index,
                keys_on_canvas(keys_of(list@), w, h),
                self.data.data@ == erase_points(data0, w, list@.take(n as int)),
                texture@ == erase_points(tex0, w, list@.take(n as int)),
            decreases list@.len() - n,
        {
            let point = &list[n];
            proof {
                assert(keys_of(list@).contains(point_key(*point)));
                lemma_point_key_inverse(*point, 0);
                lemma_width_value(self.data.canvas_bounds);
                lemma_index_on_canvas(*point, w, h);
            }
            let width = self.width() as usize;
            self.data.erase_point(point);
            erase_point(texture, point, width);
            proof {
                assert(list@.take(n + 1).drop_last() =~= list@.take(n as int));
            }
            n += 1;
        }
        assert(list@.take(list@.len() as int) =~= list@);
    }

    /// Redoes the first stroke not in effect, if any: a pencil stroke's colours
    /// are drawn again, or an eraser stroke's points erased again, on the
    /// canvas and in `texture`, and the count of strokes in effect goes up by
    /// one.
    pub fn redo(&mut self, texture: &mut [u8])
        requires
            old(self).wf(),
        ensures
            final(self).wf(),
            redo_result(*old(self), old(texture)@, *final(self), final(texture)@),
    {
        if self.changes_index < self.changes.len() {
            let i = self.changes_index;
            self.changes_index += 1;
            let ghost c = self.changes@[i as int];
            proof {
                assert(c.on_canvas(self.spec_width(), self.spec_height()));
            }
            match &self.changes[i] {
                Change::Pencil { new, .. } => {
                    let list = new.to_vec();
                    proof {
                        assert forall|k: u64| #[trigger] pixel_keys(list@).contains(k) implies key_on_canvas(
                            k,
                            self.spec_width(),
                            self.spec_height(),
                        ) by {
                            let j = choose|j: int|
                                0 <= j < list@.len() && point_key(list@[j].point) == k;
                            assert(c.new_keys().contains(point_key(list@[j].point)));
                        }
                    }
                    let ghost d = self.data.data@;
                    let ghost t = texture@;
                    self.draw_pixel_list(texture, &list);
                    proof {
                        lemma_listing_paints_map(d, self.spec_width(), self.spec_height(), new@, list@);
                        lemma_listing_paints_map(t, self.spec_width(), self.spec_height(), new@, list@);
                    }
                },
                Change::Eraser { new, .. } => {
                    let list = new.to_vec();
                    proof {
                        assert forall|k: u64| #[trigger] keys_of(list@).contains(k) implies key_on_canvas(
                            k,
                            self.spec_width(),
                            self.spec_height(),
                        ) by {
                            let j = choose|j: int| 0 <= j < list@.len() && point_key(list@[j]) == k;
                            assert(c.new_keys().contains(point_key(list@[j])));
                        }
                    }
                    let ghost d = self.data.data@;
                    let ghost t = texture@;
                    self.erase_point_list(texture, &list);
                    proof {
                        lemma_listing_erases_keys(d, self.spec_width(), self.spec_height(), new@, list@);
                        lemma_listing_erases_keys(t, self.spec_width(), self.spec_height(), new@, list@);
                    }
                },
            }
        }
    }
}


/// The history after committing `change` at position `index`: the stroke
/// takes that position, and the strokes after it, undone ones, are dropped.
pub open spec fn committed_history(changes: Seq<Change>, index: int, change: Change) -> Seq<Change> {
    changes.take(index).push(change)
}

impl Whiteboard {
    /// Commits a finished stroke: a pencil stroke's colours are drawn, or an
    /// eraser stroke's points erased, on the canvas; the stroke then enters
    /// the history as `committed_history` says, and the count of strokes in
    /// effect goes up by one.
    pub fn commit(&mut self, change: Change)
        requires
            old(self).wf(),
            change.on_canvas(old(self).spec_width(), old(self).spec_height()),
        ensures
            final(self).wf(),
            commit_result(*old(self), change, *final(self)),
    {
        let ghost w = self.spec_width();
        let ghost h = self.spec_height();
        match &change {
            Change::Pencil { new, .. } => {
                let list = new.to_vec();
                proof {
                    assert forall|k: u64| #[trigger] pixel_keys(list@).contains(k) implies key_on_canvas(k, w, h) by {
                        let j = choose|j: int| 0 <= j < list@.len() && point_key(list@[j].point) == k;
                        assert(change.new_keys().contains(point_key(list@[j].point)));
                    }
                }
                let ghost d = self.data.data@;
                let mut no_texture: Vec<u8> = Vec::new();
                self.draw_pixel_list(no_texture.as_mut_slice(), &list);
                proof {
                    lemma_listing_paints_map(d, w, h, new@, list@);
                }
            },
            Change::Eraser { new, .. } => {
                let list = new.to_vec();
                proof {
                    assert forall|k: u64| #[trigger] keys_of(list@).contains(k) implies key_on_canvas(k, w, h) by {
                        let j = choose|j: int| 0 <= j < list@.len() && point_key(list@[j]) == k;
                        assert(change.new_keys().contains(point_key(list@[j])));
                    }
                }
                let ghost d = self.data.data@;
                let mut no_texture: Vec<u8> = Vec::new();
                self.erase_point_list(no_texture.as_mut_slice(), &list);
                proof {
                    lemma_listing_erases_keys(d, w, h, new@, list@);
                }
            },
        }
        let ghost old_changes = self.changes@;
        let ghost i = self.changes_index as int;
        if self.changes_index == self.changes.len() {
            self.changes.push(change);
            // the length of the history is a `usize`, which bounds the count in effect
            let _n = self.changes.len();
            self.changes_index += 1;
            assert(old_changes.take(i) =~= old_changes);
        } else {
            let idx = self.changes_index;
            self.changes[idx] = change;
            self.changes.truncate(idx + 1);
            self.changes_index += 1;
            assert(self.changes@ =~= old_changes.take(i).push(change));
        }
        proof {
            assert forall|j: int| 0 <= j < self.changes@.len() implies (#[trigger] self.changes@[j]).on_canvas(
                w,
                h,
            ) by {
                if j < self.changes@.len() - 1 {
                    assert(self.changes@[j] == old_changes[j]);
                }
            }
        }
    }
}

/// A canvas buffer of `n` pixels, all of colour `c`.
pub open spec fn filled(c: Color, n: int) -> Seq<u8> {
    Seq::new((n * 4) as nat, |i: int| c.channel(i % 4))
}

impl Whiteboard {
    /// A whiteboard over `canvas_bounds` whose every pixel has the colour
    /// `bgcolor`, with an empty history.
    pub fn new(canvas_bounds: IntRect, bgcolor: Color) -> (wb: Whiteboard)
        requires
            canvas_bounds.width_fits(),
            canvas_bounds.height_fits(),
            canvas_bounds.x1 <= canvas_bounds.x2,
            canvas_bounds.y1 <= canvas_bounds.y2,
            (canvas_bounds.x2 - canvas_bounds.x1) * (canvas_bounds.y2 - canvas_bounds.y1) <= u32::MAX,
            (canvas_bounds.x2 - canvas_bounds.x1) * (canvas_bounds.y2 - canvas_bounds.y1) * 4 <= usize::MAX,
        ensures
            wb.wf(),
            wb.data.canvas_bounds == canvas_bounds,
            wb.data.data@ == filled(bgcolor, wb.spec_width() * wb.spec_height()),
            wb.bgcolor == bgcolor,
            wb.changes@ == Seq::<Change>::empty(),
            wb.changes_index == 0,
    {
        proof {
            lemma_width_value(canvas_bounds);
        }
        let count: u32 = canvas_bounds.width() * canvas_bounds.height();
        let ghost n = count as int;
        let mut data: Vec<u8> = Vec::new();
        let mut i: u32 = 0;
        while i < count
            invariant
                i <= count,
                n == count,
                n * 4 <= usize::MAX,
                data@ =~= filled(bgcolor, i as int),
            decreases count - i,
        {
            data.push(bgcolor.r);
            data.push(bgcolor.g);
            data.push(bgcolor.b);
            data.push(bgcolor.a);
            i += 1;
        }
        Whiteboard {
            data: WhiteboardData { canvas_bounds, data },
            bgcolor,
            changes: Vec::new(),
            changes_index: 0,
        }
    }

    /// The left edge of the canvas, to be changed in place.
    pub fn x1_mut(&mut self) -> (r: &mut i32)
        ensures
            *r == old(self).data.canvas_bounds.x1,
            final(self).data.canvas_bounds == (IntRect { x1: *final(r), ..old(self).data.canvas_bounds }),
            final(self).data.data == old(self).data.data,
            final(self).bgcolor == old(self).bgcolor,
            final(self).changes == old(self).changes,
            final(self).changes_index == old(self).changes_index,
    {
        &mut self.data.canvas_bounds.x1
    }

    /// The right edge of the canvas, to be changed in place.
    pub fn x2_mut(&mut self) -> (r: &mut i32)
        ensures
            *r == old(self).data.canvas_bounds.x2,
            final(self).data.canvas_bounds == (IntRect { x2: *final(r), ..old(self).data.canvas_bounds }),
            final(self).data.data == old(self).data.data,
            final(self).bgcolor == old(self).bgcolor,
            final(self).changes == old(self).changes,
            final(self).changes_index == old(self).changes_index,
    {
        &mut self.data.canvas_bounds.x2
    }

    /// The top edge of the canvas, to be changed in place.
    pub fn y1_mut(&mut self) -> (r: &mut i32)
        ensures
            *r == old(self).data.canvas_bounds.y1,
            final(self).data.canvas_bounds == (IntRect { y1: *final(r), ..old(self).data.canvas_bounds }),
            final(self).data.data == old(self).data.data,
            final(self).bgcolor == old(self).bgcolor,
            final(self).changes == old(self).changes,
            final(self).changes_index == old(self).changes_index,
    {
        &mut self.data.canvas_bounds.y1
    }

    /// The bottom edge of the canvas, to be changed in place.
    pub fn y2_mut(&mut self) -> (r: &mut i32)
        ensures
            *r == old(self).data.canvas_bounds.y2,
            final(self).data.canvas_bounds == (IntRect { y2: *final(r), ..old(self).data.canvas_bounds }),
            final(self).data.data == old(self).data.data,
            final(self).bgcolor == old(self).bgcolor,
            final(self).changes == old(self).changes,
            final(self).changes_index == old(self).changes_index,
    {
        &mut self.data.canvas_bounds.y2
    }
}

} // verus!
