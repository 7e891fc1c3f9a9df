use vstd::prelude::*;
use std::collections::HashMap;
use std::collections::HashSet;
use crate::color::Color;
use crate::geometry::UPoint;
use crate::canvas::Pixel;
use vstd::std_specs::iter::IteratorSpec;

verus! {

broadcast use vstd::std_specs::hash::group_hash_axioms;

/// The key under which a canvas point is stored: its horizontal coordinate
/// in the high 32 bits, its vertical one in the low 32 bits.
pub open spec fn point_key(p: UPoint) -> u64 {
    (p.x as int * 0x1_0000_0000 + p.y as int) as u64
}

/// The canvas point stored under `k`.
pub open spec fn key_point(k: u64) -> UPoint {
    UPoint { x: (k / 0x1_0000_0000) as u32, y: (k % 0x1_0000_0000) as u32 }
}

/// Keys and points correspond one to one.
pub proof fn lemma_point_key_inverse(p: UPoint, k: u64)
    ensures
        key_point(point_key(p)) == p,
        point_key(key_point(k)) == k,
{
    assert(0 <= p.x as int * 0x1_0000_0000 + p.y as int <= u64::MAX);
    assert((p.x as int * 0x1_0000_0000 + p.y as int) / 0x1_0000_0000 == p.x as int) by (nonlinear_arith)
        requires
            0 <= p.y < 0x1_0000_0000,
    ;
    assert((p.x as int * 0x1_0000_0000 + p.y as int) % 0x1_0000_0000 == p.y as int) by (nonlinear_arith)
        requires
            0 <= p.y < 0x1_0000_0000,
    ;
    assert(k == (k / 0x1_0000_0000) * 0x1_0000_0000 + k % 0x1_0000_0000) by (nonlinear_arith);
    assert(k / 0x1_0000_0000 < 0x1_0000_0000) by (nonlinear_arith);
}

/// Computes `point_key(p)`.
pub fn key_of(p: &UPoint) -> (k: u64)
    ensures
        k == point_key(*p),
{
    (p.x as u64) * 0x1_0000_0000u64 + (p.y as u64)
}

/// Computes `key_point(k)`.
pub fn point_of_key(k: u64) -> (p: UPoint)
    ensures
        p == key_point(k),
{
    assert(k / 0x1_0000_0000 < 0x1_0000_0000) by (nonlinear_arith);
    UPoint::new((k / 0x1_0000_0000u64) as u32, (k % 0x1_0000_0000u64) as u32)
}

/// `m` after inserting the pixels of `s` from the last one to the first, so
/// that of two pixels at one point the earlier one stays.
pub open spec fn inserted_from_back(m: Map<u64, Color>, s: Seq<Pixel>) -> Map<u64, Color>
    decreases s.len(),
{
    if s.len() == 0 {
        m
    } else {
        inserted_from_back(m.insert(point_key(s.last().point), s.last().color), s.drop_last())
    }
}

/// The keys of the points of the pixels of `s`.
pub open spec fn pixel_keys(s: Seq<Pixel>) -> Set<u64> {
    Set::new(|k: u64| exists|i: int| 0 <= i < s.len() && point_key(s[i].point) == k)
}

/// Whether `v` lists each entry of `m` exactly once, in some order, as a pixel.
pub open spec fn lists_pixels(v: Seq<Pixel>, m: Map<u64, Color>) -> bool {
    &&& v.len() == m.len()
    &&& forall|i: int|
        0 <= i < v.len() ==> m.contains_key(point_key(#[trigger] v[i].point)) && m[point_key(
            v[i].point,
        )] == v[i].color
    &&& forall|k: u64| #[trigger]
        m.contains_key(k) ==> exists|i: int| 0 <= i < v.len() && point_key(v[i].point) == k
    &&& forall|i: int, j: int|
        0 <= i < v.len() && 0 <= j < v.len() && i != j ==> point_key(#[trigger] v[i].point)
            != point_key(#[trigger] v[j].point)
}

/// A set of pixels, at most one per canvas point, keyed by `point_key`.
pub struct Pixels {
    pub inner: HashMap<u64, Color>,
}

impl View for Pixels {
    type V = Map<u64, Color>;

    open spec fn view(&self) -> Map<u64, Color> {
        self.inner@
    }
}

impl Pixels {
    pub fn new() -> (p: Pixels)
        ensures
            p@ == Map::<u64, Color>::empty(),
    {
        Pixels { inner: HashMap::new() }
    }

    /// Moves the pixels of `pixels` into the set, taking them from the back;
    /// a pixel replaces the one already at its point.
    pub fn append(&mut self, pixels: &mut Vec<Pixel>)
        ensures
            final(self)@ == inserted_from_back(old(self)@, old(pixels)@),
            final(pixels)@ == Seq::<Pixel>::empty(),
    {
        let ghost target = inserted_from_back(self@, pixels@);
        loop
            invariant
                inserted_from_back(self@, pixels@) == target,
            ensures
                pixels@ == Seq::<Pixel>::empty(),
                self@ == target,
            decreases pixels@.len(),
        {
            match pixels.pop() {
                Some(pixel) => {
                    let k = key_of(&pixel.point);
                    self.inner.insert(k, pixel.color);
                },
                None => {
                    break ;
                },
            }
        }
    }

    /// The pixels of the set, each once, in the order in which the map is
    /// walked.
    pub fn to_vec(&self) -> (v: Vec<Pixel>)
        ensures
            lists_pixels(v@, self@),
    {
        let mut v: Vec<Pixel> = Vec::new();
        let ghost s = vstd::std_specs::hash::spec_hash_map_iter(&self.inner).remaining();
        for kc in it: self.inner.iter()
            invariant
                it.seq() == s,
                v.len() == it.index(),
                forall|i: int|
                    0 <= i < v.len() ==> #[trigger] v@[i] == (Pixel {
                        point: key_point(*it.seq()[i].0),
                        color: *it.seq()[i].1,
                    }),
        {
            let (k, c) = kc;
            let p = point_of_key(*k);
            v.push(Pixel::new(*c, p));
        }
        proof {
            assert(v.len() == s.len());
            assert forall|i: int| 0 <= i < v.len() implies self@.contains_key(
                point_key(#[trigger] v@[i].point),
            ) && self@[point_key(v@[i].point)] == v@[i].color by {
                lemma_point_key_inverse(v@[i].point, *s[i].0);
            }
            assert forall|k: u64| #[trigger] self@.contains_key(k) implies exists|i: int|
                0 <= i < v.len() && point_key(v@[i].point) == k by {
                assert(s.contains((&k, &self@[k])));
                let i = choose|i: int| 0 <= i < s.len() && s[i] == (&k, &self@[k]);
                lemma_point_key_inverse(v@[i].point, k);
            }
            assert forall|i: int, j: int|
                0 <= i < v.len() && 0 <= j < v.len() && i != j implies point_key(#[trigger] v@[i].point)
                != point_key(#[trigger] v@[j].point) by {
                lemma_point_key_inverse(v@[i].point, *s[i].0);
                lemma_point_key_inverse(v@[j].point, *s[j].0);
            }
        }
        v
    }
}

/// The keys of the points of `s`.
pub open spec fn keys_of(s: Seq<UPoint>) -> Set<u64> {
    Set::new(|k: u64| exists|i: int| 0 <= i < s.len() && point_key(s[i]) == k)
}

/// Whether `v` lists each point of `keys` exactly once, in some order.
pub open spec fn lists_points(v: Seq<UPoint>, keys: Set<u64>) -> bool {
    &&& v.len() == keys.len()
    &&& forall|i: int| 0 <= i < v.len() ==> keys.contains(point_key(#[trigger] v[i]))
    &&& forall|k: u64| #[trigger]
        keys.contains(k) ==> exists|i: int| 0 <= i < v.len() && point_key(v[i]) == k
    &&& forall|i: int, j: int|
        0 <= i < v.len() && 0 <= j < v.len() && i != j ==> point_key(#[trigger] v[i]) != point_key(
            #[trigger] v[j],
        )
}

proof fn lemma_keys_of_drop_last(s: Seq<UPoint>)
    requires
        s.len() > 0,
    ensures
        keys_of(s) == keys_of(s.drop_last()).insert(point_key(s.last())),
{
    assert forall|k: u64| #[trigger] keys_of(s).contains(k) implies keys_of(
        s.drop_last(),
    ).insert(point_key(s.last())).contains(k) by {
        let i = choose|i: int| 0 <= i < s.len() && point_key(s[i]) == k;
        if i < s.len() - 1 {
            assert(s.drop_last()[i] == s[i]);
        }
    }
    assert forall|k: u64| #[trigger] keys_of(s.drop_last()).insert(point_key(s.last())).contains(
        k,
    ) implies keys_of(s).contains(k) by {
        if k != point_key(s.last()) {
            let i = choose|i: int| 0 <= i < s.len() - 1 && point_key(s.drop_last()[i]) == k;
            assert(s[i] == s.drop_last()[i]);
        } else {
            assert(point_key(s[s.len() - 1]) == k);
        }
    }
    assert(keys_of(s) =~= keys_of(s.drop_last()).insert(point_key(s.last())));
}

/// A set of canvas points, keyed by `point_key`.
pub struct Points {
    pub inner: HashSet<u64>,
}

impl View for Points {
    type V = Set<u64>;

    open spec fn view(&self) -> Set<u64> {
        self.inner@
    }
}

impl Points {
    pub fn new() -> (p: Points)
        ensures
            p@ == Set::<u64>::empty(),
    {
        Points { inner: HashSet::new() }
    }

    /// Moves the points of `points` into the set.
    pub fn append(&mut self, points: &mut Vec<UPoint>)
        ensures
            final(self)@ == old(self)@ + keys_of(old(points)@),
            final(points)@ == Seq::<UPoint>::empty(),
    {
        let ghost target = self@ + keys_of(points@);
        loop
            invariant
                self@ + keys_of(points@) == target,
            ensures
                points@ == Seq::<UPoint>::empty(),
                self@ == target,
            decreases points@.len(),
        {
            let ghost before = points@;
            match points.pop() {
                Some(point) => {
                    proof {
                        lemma_keys_of_drop_last(before);
                    }
                    let k = key_of(&point);
                    self.inner.insert(k);
                    assert(self@ + keys_of(points@) =~= target);
                },
                None => {
                    assert(keys_of(points@) =~= Set::<u64>::empty());
                    assert(self@ =~= target);
                    break ;
                },
            }
        }
    }

    /// The points of the set, each once, in the order in which the set is
    /// walked.
    pub fn to_vec(&self) -> (v: Vec<UPoint>)
        ensures
            lists_points(v@, self@),
    {
        let mut v: Vec<UPoint> = Vec::new();
        let ghost s = vstd::std_specs::hash::spec_hash_keys_iter(&self.inner).remaining();
        for k in it: self.inner.iter()
            invariant
                it.seq() == s,
                v.len() == it.index(),
                forall|i: int| 0 <= i < v.len() ==> #[trigger] v@[i] == key_point(*it.seq()[i]),
        {
            let p = point_of_key(*k);
            v.push(p);
        }
        proof {
            assert(v.len() == s.len());
            assert(s.unref().to_set() == self@);
            assert forall|i: int| 0 <= i < v.len() implies self@.contains(point_key(#[trigger] v@[i])) by {
                lemma_point_key_inverse(v@[i], *s[i]);
                assert(s.unref()[i] == *s[i]);
                assert(s.unref().to_set().contains(*s[i]));
            }
            assert forall|k: u64| #[trigger] self@.contains(k) implies exists|i: int|
                0 <= i < v.len() && point_key(v@[i]) == k by {
                assert(s.unref().to_set().contains(k));
                let i = choose|i: int| 0 <= i < s.len() && s.unref()[i] == k;
                lemma_point_key_inverse(v@[i], k);
            }
            assert forall|i: int, j: int|
                0 <= i < v.len() && 0 <= j < v.len() && i != j implies point_key(#[trigger] v@[i])
                != point_key(#[trigger] v@[j]) by {
                lemma_point_key_inverse(v@[i], *s[i]);
                lemma_point_key_inverse(v@[j], *s[j]);
            }
        }
        v
    }
}

} // verus!
