use crate::client::Geometry;
use vstd::prelude::*;

verus! {

/// `v` brought into the range of a window coordinate.
pub open spec fn clamp_coord(v: int) -> i32 {
    if v < i32::MIN {
        i32::MIN
    } else if v > i32::MAX {
        i32::MAX
    } else {
        v as i32
    }
}

/// `v` brought into the range of a window dimension, which is never below 1.
pub open spec fn clamp_extent(v: int) -> u32 {
    if v < 1 {
        1
    } else if v > u32::MAX {
        u32::MAX
    } else {
        v as u32
    }
}

/// Half of `d`, rounded towards zero.
pub open spec fn half(d: int) -> int {
    if d >= 0 {
        d / 2
    } else {
        -((-d) / 2)
    }
}

/// The coordinate that centres something `extent` long on a screen `screen`
/// long: half of what is left over, rounded towards zero.
pub open spec fn centered(screen: i32, extent: u32) -> i32 {
    clamp_coord(half(screen - extent))
}

fn to_coord(v: i64) -> (c: i32)
    ensures
        c == clamp_coord(v as int),
{
    if v < -2147483648 {
        -2147483648
    } else if v > 2147483647 {
        2147483647
    } else {
        v as i32
    }
}

fn to_extent(v: i64) -> (e: u32)
    ensures
        e == clamp_extent(v as int),
{
    if v < 1 {
        1
    } else if v > 4294967295 {
        4294967295
    } else {
        v as u32
    }
}

/// The coordinate that centres a window `extent` long on a screen `screen`
/// long.
pub fn center(screen: i32, extent: u32) -> (c: i32)
    ensures
        c == centered(screen, extent),
{
    let d: i64 = screen as i64 - extent as i64;
    let h: i64 = if d >= 0 {
        d / 2
    } else {
        -((-d) / 2)
    };
    to_coord(h)
}

/// `g` moved so that it is centred on a screen of the given size.
pub open spec fn centered_on(g: Geometry, width: i32, height: i32) -> Geometry {
    Geometry {
        x: centered(width, g.width),
        y: centered(height, g.height),
        width: g.width,
        height: g.height,
    }
}

/// One coordinate of a window after its origin `origin` has gone along with a
/// pointer that went from `from` to `to`.
pub open spec fn shifted(origin: i32, from: i32, to: i32) -> i32 {
    clamp_coord(origin + (to - from))
}

/// One dimension of a window after its extent `extent` has grown by as much
/// as a pointer went from `from` to `to`; never below 1.
pub open spec fn stretched(extent: u32, from: i32, to: i32) -> u32 {
    clamp_extent(extent + (to - from))
}

/// Moves `origin` by the way of the pointer.
pub fn shift(origin: i32, from: i32, to: i32) -> (c: i32)
    ensures
        c == shifted(origin, from, to),
{
    to_coord(origin as i64 + (to as i64 - from as i64))
}

/// Grows `extent` by the way of the pointer, stopping at 1.
pub fn stretch(extent: u32, from: i32, to: i32) -> (e: u32)
    ensures
        e == stretched(extent, from, to),
        e >= 1,
{
    to_extent(extent as i64 + (to as i64 - from as i64))
}

} // verus!
