//! Fractional numbers by their bits: how they compare.
use vstd::prelude::*;
use crate::formats::Corner;

verus! {

/// The size of a fractional number without its sign, as an ordered number.
pub open spec fn magnitude(bits: u32) -> u32 {
    bits & 0x7fff_ffff
}

/// A fractional number as an ordered number: of two that are no infinities
/// and no NaNs, the lesser one has the lesser place.
pub open spec fn place_of(bits: u32) -> int {
    if bits & 0x8000_0000 != 0 {
        -(magnitude(bits) as int)
    } else {
        magnitude(bits) as int
    }
}

/// A number below 1e9 in size; no infinity and no NaN is.
pub open spec fn is_small(bits: u32) -> bool {
    magnitude(bits) < 0x4e6e_6b28
}

/// All coordinates are below 1e9 in size.
pub open spec fn is_near(c: Corner) -> bool {
    is_small(c.x) && is_small(c.y) && is_small(c.z)
}

/// A box worth showing: an empty map stores its boxes inverted, with the
/// corners at the largest numbers there are.
pub open spec fn is_box(lo: Corner, hi: Corner) -> bool {
    &&& is_near(lo)
    &&& is_near(hi)
    &&& place_of(lo.x) <= place_of(hi.x)
    &&& place_of(lo.y) <= place_of(hi.y)
    &&& place_of(lo.z) <= place_of(hi.z)
}

fn small(bits: u32) -> (r: bool)
    ensures
        r == is_small(bits),
{
    bits & 0x7fff_ffff < 0x4e6e_6b28
}

fn place(bits: u32) -> (r: i64)
    ensures
        r == place_of(bits),
{
    let size: i64 = (bits & 0x7fff_ffff) as i64;
    if bits & 0x8000_0000 != 0 {
        -size
    } else {
        size
    }
}

/// Whether a box is worth showing.
pub fn is_finite_box(lo: Corner, hi: Corner) -> (r: bool)
    ensures
        r == is_box(lo, hi),
{
    small(lo.x) && small(lo.y) && small(lo.z) && small(hi.x) && small(hi.y) && small(hi.z) && place(
        lo.x,
    ) <= place(hi.x) && place(lo.y) <= place(hi.y) && place(lo.z) <= place(hi.z)
}

/// Not a number.
pub open spec fn is_nan(bits: u32) -> bool {
    magnitude(bits) > 0x7f80_0000
}

/// The first number is at least the second; no NaN is, or is anything at
/// least.
pub open spec fn is_at_least(a: u32, b: u32) -> bool {
    !is_nan(a) && !is_nan(b) && place_of(a) >= place_of(b)
}

/// Whether the first number is at least the second.
pub fn at_least(a: u32, b: u32) -> (r: bool)
    ensures
        r == is_at_least(a, b),
{
    a & 0x7fff_ffff <= 0x7f80_0000 && b & 0x7fff_ffff <= 0x7f80_0000 && place(a) >= place(b)
}

/// The first number is above the second; no NaN is, or is below anything.
pub open spec fn is_above(a: u32, b: u32) -> bool {
    is_at_least(a, b) && !is_at_least(b, a)
}

/// Whether the first number is above the second.
pub fn above(a: u32, b: u32) -> (r: bool)
    ensures
        r == is_above(a, b),
{
    at_least(a, b) && !at_least(b, a)
}

/// An area of the ground, as the bits of its edges.
#[derive(Debug, Clone, Copy, PartialEq, Eq, Structural)]
pub struct Area {
    pub x0: u32,
    pub y0: u32,
    pub x1: u32,
    pub y1: u32,
}

/// The point lies over the area or on its edge.
pub open spec fn lies_in(c: Corner, area: Area) -> bool {
    is_at_least(c.x, area.x0) && is_at_least(area.x1, c.x) && is_at_least(c.y, area.y0)
        && is_at_least(area.y1, c.y)
}

/// Whether a point lies over an area or on its edge.
pub fn is_in(c: Corner, area: Area) -> (r: bool)
    ensures
        r == lies_in(c, area),
{
    at_least(c.x, area.x0) && at_least(area.x1, c.x) && at_least(c.y, area.y0) && at_least(
        area.y1,
        c.y,
    )
}

/// The bits of a NaN.
pub const NAN_BITS: u32 = 0x7fc0_0000;

/// The lesser of two numbers; a NaN gives way.
pub open spec fn lesser(a: u32, b: u32) -> u32 {
    if is_nan(a) || is_above(a, b) {
        b
    } else {
        a
    }
}

/// The greater of two numbers; a NaN gives way.
pub open spec fn greater(a: u32, b: u32) -> u32 {
    if is_nan(a) || is_above(b, a) {
        b
    } else {
        a
    }
}

/// The lesser of two numbers; a NaN gives way.
pub fn lesser_of(a: u32, b: u32) -> (r: u32)
    ensures
        r == lesser(a, b),
{
    if a & 0x7fff_ffff > 0x7f80_0000 || above(a, b) {
        b
    } else {
        a
    }
}

/// The greater of two numbers; a NaN gives way.
pub fn greater_of(a: u32, b: u32) -> (r: u32)
    ensures
        r == greater(a, b),
{
    if a & 0x7fff_ffff > 0x7f80_0000 || above(b, a) {
        b
    } else {
        a
    }
}

/// The corner of the least coordinates of some points.
pub open spec fn least(points: Seq<Corner>) -> Corner
    decreases points.len(),
{
    if points.len() == 0 {
        Corner { x: NAN_BITS, y: NAN_BITS, z: NAN_BITS }
    } else {
        let before = least(points.drop_last());
        let p = points.last();
        Corner { x: lesser(before.x, p.x), y: lesser(before.y, p.y), z: lesser(before.z, p.z) }
    }
}

/// The corner of the greatest coordinates of some points.
pub open spec fn greatest(points: Seq<Corner>) -> Corner
    decreases points.len(),
{
    if points.len() == 0 {
        Corner { x: NAN_BITS, y: NAN_BITS, z: NAN_BITS }
    } else {
        let before = greatest(points.drop_last());
        let p = points.last();
        Corner { x: greater(before.x, p.x), y: greater(before.y, p.y), z: greater(before.z, p.z) }
    }
}

/// The box around some points.
pub fn box_around(points: &Vec<Corner>) -> (r: (Corner, Corner))
    ensures
        r.0 == least(points@),
        r.1 == greatest(points@),
{
    let mut lo = Corner { x: NAN_BITS, y: NAN_BITS, z: NAN_BITS };
    let mut hi = Corner { x: NAN_BITS, y: NAN_BITS, z: NAN_BITS };
    let mut i: usize = 0;
    assert(points@.take(0) =~= Seq::empty());
    while i < points.len()
        invariant
            i <= points.len(),
            lo == least(points@.take(i as int)),
            hi == greatest(points@.take(i as int)),
        decreases points.len() - i,
    {
        proof {
            assert(points@.take(i + 1).drop_last() =~= points@.take(i as int));
            assert(points@.take(i + 1).last() == points[i as int]);
        }
        let p = points[i];
        lo = Corner { x: lesser_of(lo.x, p.x), y: lesser_of(lo.y, p.y), z: lesser_of(lo.z, p.z) };
        hi = Corner { x: greater_of(hi.x, p.x), y: greater_of(hi.y, p.y), z: greater_of(hi.z, p.z) };
        i = i + 1;
    }
    assert(points@.take(points.len() as int) =~= points@);
    (lo, hi)
}

/// The coordinate lies between those of the corners.
pub open spec fn spans(lo: u32, c: u32, hi: u32) -> bool {
    is_at_least(c, lo) && is_at_least(hi, c)
}

/// A box around points holds every one of them, where no coordinate is a NaN.
pub proof fn law_box_holds_its_points(points: Seq<Corner>, i: int)
    requires
        0 <= i < points.len(),
        forall|k: int|
            0 <= k < points.len() ==> !is_nan((#[trigger] points[k]).x) && !is_nan(points[k].y)
                && !is_nan(points[k].z),
    ensures
        spans(least(points).x, points[i].x, greatest(points).x),
        spans(least(points).y, points[i].y, greatest(points).y),
        spans(least(points).z, points[i].z, greatest(points).z),
    decreases points.len(),
{
    let front = points.drop_last();
    let last = points.last();
    assert(last == points[points.len() - 1]);
    assert forall|k: int| 0 <= k < front.len() implies !is_nan((#[trigger] front[k]).x) && !is_nan(
        front[k].y,
    ) && !is_nan(front[k].z) by {
        assert(front[k] == points[k]);
    }
    assert(is_nan(NAN_BITS)) by (bit_vector);
    if front.len() > 0 {
        law_box_holds_its_points(front, 0);
        if i < front.len() {
            law_box_holds_its_points(front, i);
            assert(front[i] == points[i]);
        }
    }
}

} // verus!
