use vstd::prelude::*;
use crate::color::Color;
use crate::geometry::UPoint;
use crate::canvas::{Pixel, paint, point_index, color_at};
use crate::pixels::{point_key, key_point, lists_pixels, lists_points, lemma_point_key_inverse};

verus! {

broadcast use vstd::seq_lib::group_seq_properties;

/// `data` after drawing the pixels of `s` in order into a buffer whose rows
/// are `width` pixels long.
pub open spec fn paint_pixels(data: Seq<u8>, width: int, s: Seq<Pixel>) -> Seq<u8>
    decreases s.len(),
{
    if s.len() == 0 {
        data
    } else {
        paint(
            paint_pixels(data, width, s.drop_last()),
            point_index(s.last().point, width),
            s.last().color,
        )
    }
}

/// `data` after erasing the points of `s` in order, in a buffer whose rows are
/// `width` pixels long.
pub open spec fn erase_points(data: Seq<u8>, width: int, s: Seq<UPoint>) -> Seq<u8>
    decreases s.len(),
{
    if s.len() == 0 {
        data
    } else {
        paint(
            erase_points(data, width, s.drop_last()),
            point_index(s.last(), width),
            Color::spec_transparent(),
        )
    }
}

/// Whether the point stored under `k` lies on a canvas of `w` by `h` pixels.
pub open spec fn key_on_canvas(k: u64, w: int, h: int) -> bool {
    key_point(k).x < w && key_point(k).y < h
}

/// Whether every point stored under a key of `keys` lies on a canvas of `w`
/// by `h` pixels.
pub open spec fn keys_on_canvas(keys: Set<u64>, w: int, h: int) -> bool {
    forall|k: u64| #[trigger] keys.contains(k) ==> key_on_canvas(k, w, h)
}

/// The pixels of `pts`, all in `color`.
pub open spec fn colored(pts: Seq<UPoint>, color: Color) -> Seq<Pixel> {
    pts.map_values(|p: UPoint| Pixel { color: color, point: p })
}

/// Whether drawing `px` into rows of `w` pixels writes the byte at `i`.
pub open spec fn covers(px: Pixel, w: int, i: int) -> bool {
    point_index(px.point, w) <= i < point_index(px.point, w) + 4
}

/// The value that drawing `px` writes at the byte `i` it covers.
pub open spec fn writes(px: Pixel, w: int, i: int) -> u8 {
    px.color.channel(i - point_index(px.point, w))
}

pub proof fn lemma_paint_pixels_len(d: Seq<u8>, w: int, s: Seq<Pixel>)
    ensures
        paint_pixels(d, w, s).len() == d.len(),
    decreases s.len(),
{
    if s.len() > 0 {
        lemma_paint_pixels_len(d, w, s.drop_last());
    }
}

/// Drawing a list of pixels leaves at a byte either its old value, when no
/// pixel covers it, or the value that every pixel covering it writes there.
pub proof fn lemma_paint_pixels_byte(d: Seq<u8>, w: int, s: Seq<Pixel>, i: int, v: u8)
    requires
        0 <= i < d.len(),
        forall|k: int| 0 <= k < s.len() && covers(#[trigger] s[k], w, i) ==> writes(s[k], w, i) == v,
    ensures
        paint_pixels(d, w, s)[i] == if exists|k: int| 0 <= k < s.len() && covers(#[trigger] s[k], w, i) {
            v
        } else {
            d[i]
        },
    decreases s.len(),
{
    if s.len() > 0 {
        let t = s.drop_last();
        assert forall|k: int| 0 <= k < t.len() && covers(#[trigger] t[k], w, i) implies writes(t[k], w, i) == v by {
            assert(t[k] == s[k]);
        }
        lemma_paint_pixels_byte(d, w, t, i, v);
        lemma_paint_pixels_len(d, w, t);
        if exists|k: int| 0 <= k < t.len() && covers(#[trigger] t[k], w, i) {
            let k = choose|k: int| 0 <= k < t.len() && covers(#[trigger] t[k], w, i);
            assert(s[k] == t[k]);
        }
        if exists|k: int| 0 <= k < s.len() && covers(#[trigger] s[k], w, i) {
            let k = choose|k: int| 0 <= k < s.len() && covers(#[trigger] s[k], w, i);
            if k < s.len() - 1 {
                assert(t[k] == s[k]);
            }
        }
        assert(covers(s.last(), w, i) ==> covers(s[s.len() - 1], w, i));
    }
}

/// Erasing a list of points draws them in transparent black.
pub proof fn lemma_erase_as_paint(d: Seq<u8>, w: int, s: Seq<UPoint>)
    ensures
        erase_points(d, w, s) == paint_pixels(d, w, colored(s, Color::spec_transparent())),
    decreases s.len(),
{
    if s.len() > 0 {
        lemma_erase_as_paint(d, w, s.drop_last());
        assert(colored(s, Color::spec_transparent()).drop_last() =~= colored(
            s.drop_last(),
            Color::spec_transparent(),
        ));
    }
}

/// A pixel's first byte is a multiple of four.
pub proof fn lemma_index_aligned(p: UPoint, w: int)
    ensures
        point_index(p, w) % 4 == 0,
{
    assert(((p.x + p.y * w) * 4) % 4 == 0) by (nonlinear_arith);
}

/// On a canvas whose rows are `w` pixels long, two points whose pixels share
/// a byte are the same point.
pub proof fn lemma_pixels_disjoint(p: UPoint, q: UPoint, w: int, i: int)
    requires
        p.x < w,
        q.x < w,
        point_index(p, w) <= i < point_index(p, w) + 4,
        point_index(q, w) <= i < point_index(q, w) + 4,
    ensures
        p == q,
{
    lemma_index_aligned(p, w);
    lemma_index_aligned(q, w);
    assert(point_index(p, w) == point_index(q, w));
    if p.y < q.y {
        assert(p.x + p.y * w < q.x + q.y * w) by (nonlinear_arith)
            requires
                p.y < q.y,
                0 <= p.x < w,
                0 <= q.x,
        ;
    } else if q.y < p.y {
        assert(q.x + q.y * w < p.x + p.y * w) by (nonlinear_arith)
            requires
                q.y < p.y,
                0 <= q.x < w,
                0 <= p.x,
        ;
    }
}

/// Whether the pixel of the point stored under `k` covers the byte `i`, in
/// rows of `w` pixels.
pub open spec fn key_covers(k: u64, w: int, i: int) -> bool {
    point_index(key_point(k), w) <= i < point_index(key_point(k), w) + 4
}

/// `data` after drawing each colour of `m` at the point stored under its key,
/// in rows of `w` pixels: a byte that a pixel of `m` covers takes that
/// pixel's channel, any other byte keeps its value.
pub open spec fn paint_map(data: Seq<u8>, w: int, m: Map<u64, Color>) -> Seq<u8> {
    Seq::new(
        data.len(),
        |i: int|
            if exists|k: u64| m.contains_key(k) && key_covers(k, w, i) {
                let k = choose|k: u64| m.contains_key(k) && key_covers(k, w, i);
                m[k].channel(i - point_index(key_point(k), w))
            } else {
                data[i]
            },
    )
}

/// Transparent black at every key of `keys`.
pub open spec fn transparent_at(keys: Set<u64>) -> Map<u64, Color> {
    keys.mk_map(|k: u64| Color::spec_transparent())
}

/// `data` after erasing the point stored under each key of `keys`, in rows of
/// `w` pixels.
pub open spec fn erase_keys(data: Seq<u8>, w: int, keys: Set<u64>) -> Seq<u8> {
    paint_map(data, w, transparent_at(keys))
}

/// Drawing the pixels of any listing of `m` in order gives `paint_map`: on a
/// canvas no two points share a byte, so the order does not matter.
pub proof fn lemma_listing_paints_map(d: Seq<u8>, w: int, h: int, m: Map<u64, Color>, s: Seq<Pixel>)
    requires
        keys_on_canvas(m.dom(), w, h),
        lists_pixels(s, m),
    ensures
        paint_pixels(d, w, s) == paint_map(d, w, m),
{
    lemma_paint_pixels_len(d, w, s);
    assert forall|i: int| 0 <= i < d.len() implies paint_pixels(d, w, s)[i] == paint_map(d, w, m)[i] by {
        if exists|k: u64| m.contains_key(k) && key_covers(k, w, i) {
            let k = choose|k: u64| m.contains_key(k) && key_covers(k, w, i);
            let v = m[k].channel(i - point_index(key_point(k), w));
            assert(m.dom().contains(k));
            assert forall|j: int| 0 <= j < s.len() && covers(#[trigger] s[j], w, i) implies writes(
                s[j],
                w,
                i,
            ) == v by {
                let kj = point_key(s[j].point);
                lemma_point_key_inverse(s[j].point, kj);
                assert(m.dom().contains(kj));
                lemma_pixels_disjoint(s[j].point, key_point(k), w, i);
                lemma_point_key_inverse(key_point(k), k);
            }
            let j = choose|j: int| 0 <= j < s.len() && point_key(s[j].point) == k;
            lemma_point_key_inverse(s[j].point, k);
            assert(covers(s[j], w, i));
            lemma_paint_pixels_byte(d, w, s, i, v);
        } else {
            assert forall|j: int| 0 <= j < s.len() implies !covers(#[trigger] s[j], w, i) by {
                let kj = point_key(s[j].point);
                lemma_point_key_inverse(s[j].point, kj);
                assert(m.contains_key(kj));
                assert(key_covers(kj, w, i) == covers(s[j], w, i));
            }
            lemma_paint_pixels_byte(d, w, s, i, d[i]);
        }
    }
    assert(paint_pixels(d, w, s) =~= paint_map(d, w, m));
}

/// Erasing the points of any listing of `keys` in order gives `erase_keys`.
pub proof fn lemma_listing_erases_keys(d: Seq<u8>, w: int, h: int, keys: Set<u64>, s: Seq<UPoint>)
    requires
        keys_on_canvas(keys, w, h),
        lists_points(s, keys),
    ensures
        erase_points(d, w, s) == erase_keys(d, w, keys),
{
    let t = Color::spec_transparent();
    let m = transparent_at(keys);
    let v = colored(s, t);
    lemma_erase_as_paint(d, w, s);
    assert(m.dom() =~= keys);
    assert forall|i: int| 0 <= i < v.len() implies m.contains_key(point_key(#[trigger] v[i].point))
        && m[point_key(v[i].point)] == v[i].color by {
        assert(v[i].point == s[i]);
        assert(keys.contains(point_key(s[i])));
    }
    assert forall|k: u64| #[trigger] m.contains_key(k) implies exists|i: int|
        0 <= i < v.len() && point_key(v[i].point) == k by {
        assert(keys.contains(k));
        let i = choose|i: int| 0 <= i < s.len() && point_key(s[i]) == k;
        assert(v[i].point == s[i]);
    }
    assert forall|i: int, j: int|
        0 <= i < v.len() && 0 <= j < v.len() && i != j implies point_key(#[trigger] v[i].point)
        != point_key(#[trigger] v[j].point) by {
        assert(v[i].point == s[i]);
        assert(v[j].point == s[j]);
    }
    lemma_listing_paints_map(d, w, h, m, v);
}

/// On a canvas, the pixel of a key of `m` holds that key's colour once `m`
/// is drawn.
pub proof fn lemma_paint_map_at(d: Seq<u8>, w: int, h: int, m: Map<u64, Color>, k: u64)
    requires
        keys_on_canvas(m.dom(), w, h),
        m.contains_key(k),
        point_index(key_point(k), w) + 3 < d.len(),
    ensures
        color_at(paint_map(d, w, m), point_index(key_point(k), w)) == Some(m[k]),
{
    let idx = point_index(key_point(k), w);
    let r = paint_map(d, w, m);
    assert(m.dom().contains(k));
    assert(key_point(k).x < w);
    assert(idx >= 0) by (nonlinear_arith)
        requires
            idx == (key_point(k).x + key_point(k).y * w) * 4,
            0 <= key_point(k).x < w,
            0 <= key_point(k).y,
    ;
    assert forall|i: int| idx <= i < idx + 4 implies r[i] == m[k].channel(i - idx) by {
        assert(key_covers(k, w, i));
        let k2 = choose|k2: u64| m.contains_key(k2) && key_covers(k2, w, i);
        assert(m.dom().contains(k2));
        lemma_pixels_disjoint(key_point(k2), key_point(k), w, i);
        lemma_point_key_inverse(key_point(k2), k2);
        lemma_point_key_inverse(key_point(k), k);
    }
    assert(r[idx] == m[k].channel(0));
    assert(r[idx + 1] == m[k].channel(1));
    assert(r[idx + 2] == m[k].channel(2));
    assert(r[idx + 3] == m[k].channel(3));
}

/// On a canvas, a point that no key of `m` names keeps its colour when `m` is
/// drawn.
pub proof fn lemma_paint_map_elsewhere(d: Seq<u8>, w: int, h: int, m: Map<u64, Color>, p: UPoint)
    requires
        keys_on_canvas(m.dom(), w, h),
        !m.contains_key(point_key(p)),
        p.x < w,
    ensures
        color_at(paint_map(d, w, m), point_index(p, w)) == color_at(d, point_index(p, w)),
{
    let idx = point_index(p, w);
    let r = paint_map(d, w, m);
    assert forall|i: int| idx <= i < idx + 4 && 0 <= i < d.len() implies r[i] == d[i] by {
        if exists|k: u64| m.contains_key(k) && key_covers(k, w, i) {
            let k = choose|k: u64| m.contains_key(k) && key_covers(k, w, i);
            assert(m.dom().contains(k));
            lemma_pixels_disjoint(key_point(k), p, w, i);
            lemma_point_key_inverse(key_point(k), k);
        }
    }
}

/// Drawing a list of points on a canvas all in one colour leaves each of
/// them in that colour.
pub proof fn lemma_colored_paint_at(t: Seq<u8>, w: int, pts: Seq<UPoint>, c: Color, k: int)
    requires
        forall|j: int| 0 <= j < pts.len() ==> (#[trigger] pts[j]).x < w,
        0 <= k < pts.len(),
        point_index(pts[k], w) + 3 < t.len(),
    ensures
        color_at(paint_pixels(t, w, colored(pts, c)), point_index(pts[k], w)) == Some(c),
{
    let v = colored(pts, c);
    let q = pts[k];
    let idx = point_index(q, w);
    let r = paint_pixels(t, w, v);
    assert(q.x < w);
    assert(idx >= 0) by (nonlinear_arith)
        requires
            idx == (q.x + q.y * w) * 4,
            0 <= q.x < w,
            0 <= q.y,
    ;
    assert forall|i: int| idx <= i < idx + 4 implies r[i] == c.channel(i - idx) by {
        assert forall|j: int| 0 <= j < v.len() && covers(#[trigger] v[j], w, i) implies writes(
            v[j],
            w,
            i,
        ) == c.channel(i - idx) by {
            assert(v[j].point == pts[j]);
            lemma_pixels_disjoint(pts[j], q, w, i);
        }
        assert(v[k].point == q);
        assert(covers(v[k], w, i));
        lemma_paint_pixels_byte(t, w, v, i, c.channel(i - idx));
    }
    lemma_paint_pixels_len(t, w, v);
    assert(r[idx] == c.channel(0));
    assert(r[idx + 1] == c.channel(1));
    assert(r[idx + 2] == c.channel(2));
    assert(r[idx + 3] == c.channel(3));
}

} // verus!
