use vstd::prelude::*;

use crate::common::Vec2;

verus! {

/// The world coordinate under screen coordinate `s`: the screen divided by
/// the zoom, rounded down, minus the offset. (For a positive zoom, `/` on
/// `int` rounds down.)
pub open spec fn to_world(s: int, offset: int, zoom: int) -> int {
    s / zoom - offset
}

/// The screen coordinate of the corner of the block that shows world
/// coordinate `w`.
pub open spec fn to_screen(w: int, offset: int, zoom: int) -> int {
    (w + offset) * zoom
}

pub open spec fn fits_i32(v: int) -> bool {
    i32::MIN <= v <= i32::MAX
}

/// The zoom after one scroll of the wheel: one step in above a scroll of 1,
/// one step out below -1, never under 1 and never past `i32::MAX`.
pub open spec fn zoom_after(zoom: int, scroll: int) -> int {
    if scroll > 1 {
        if zoom < i32::MAX {
            zoom + 1
        } else {
            zoom
        }
    } else if scroll < -1 {
        if zoom > 1 {
            zoom - 1
        } else {
            zoom
        }
    } else {
        zoom
    }
}

/// Maps a screen point to the world point under it.
pub fn screen_to_world(screen: Vec2<i32>, offset: Vec2<i32>, zoom: i32) -> (r: Vec2<i32>)
    requires
        zoom >= 1,
        fits_i32(to_world(screen.x as int, offset.x as int, zoom as int)),
        fits_i32(to_world(screen.y as int, offset.y as int, zoom as int)),
    ensures
        r.x == to_world(screen.x as int, offset.x as int, zoom as int),
        r.y == to_world(screen.y as int, offset.y as int, zoom as int),
{
    Vec2 { x: floor_div(screen.x, zoom) - offset.x, y: floor_div(screen.y, zoom) - offset.y }
}

/// Maps a world point to the screen corner of the `zoom` by `zoom` block
/// that shows it.
pub fn world_to_screen(world: Vec2<i32>, offset: Vec2<i32>, zoom: i32) -> (r: Vec2<i32>)
    requires
        fits_i32(world.x + offset.x),
        fits_i32(world.y + offset.y),
        fits_i32(to_screen(world.x as int, offset.x as int, zoom as int)),
        fits_i32(to_screen(world.y as int, offset.y as int, zoom as int)),
    ensures
        r.x == to_screen(world.x as int, offset.x as int, zoom as int),
        r.y == to_screen(world.y as int, offset.y as int, zoom as int),
{
    Vec2 { x: (world.x + offset.x) * zoom, y: (world.y + offset.y) * zoom }
}

/// The zoom level after a scroll of the wheel.
pub fn zoom_for_scroll(zoom: i32, scroll: i32) -> (r: i32)
    requires
        zoom >= 1,
    ensures
        r == zoom_after(zoom as int, scroll as int),
        r >= 1,
{
    if scroll > 1 {
        if zoom < i32::MAX {
            zoom + 1
        } else {
            zoom
        }
    } else if scroll < -1 {
        if zoom > 1 {
            zoom - 1
        } else {
            zoom
        }
    } else {
        zoom
    }
}

/// How far the world point under screen coordinate `s` moves when the zoom
/// goes from `from` to `to` with the offset held: the amount to take off the
/// offset so that the same point stays under it.
pub open spec fn zoom_shift(s: int, from: int, to: int) -> int {
    s / from - s / to
}

/// `a` divided by `b`, rounded down.
pub fn floor_div(a: i32, b: i32) -> (r: i32)
    requires
        b >= 1,
    ensures
        r == a as int / b as int,
        a >= 0 ==> 0 <= r <= a,
        a < 0 ==> a <= r <= -1,
{
    if a >= 0 {
        let r = a / b;
        proof {
            vstd::arithmetic::div_mod::lemma_div_is_ordered_by_denominator(a as int, 1, b as int);
            vstd::arithmetic::div_mod::lemma_div_pos_is_pos(a as int, b as int);
        }
        r
    } else {
        let m = -(a + 1);
        let q = m / b;
        proof {
            let (ai, bi, mi, qi) = (a as int, b as int, m as int, q as int);
            vstd::arithmetic::div_mod::lemma_fundamental_div_mod(mi, bi);
            vstd::arithmetic::div_mod::lemma_div_is_ordered_by_denominator(mi, 1, bi);
            vstd::arithmetic::div_mod::lemma_div_pos_is_pos(mi, bi);
            let rm = mi % bi;
            assert(ai == bi * (-qi - 1) + (bi - 1 - rm)) by (nonlinear_arith)
                requires
                    mi == bi * qi + rm,
                    mi == -(ai + 1),
            ;
            vstd::arithmetic::div_mod::lemma_fundamental_div_mod_converse(
                ai,
                bi,
                -qi - 1,
                bi - 1 - rm,
            );
        }
        -q - 1
    }
}

/// The shift of the offset that holds screen coordinate `s` over the same
/// world point while the zoom goes from `from` to `to`.
pub fn zoom_shift_for(s: i32, from: i32, to: i32) -> (r: i32)
    requires
        from >= 1,
        to >= 1,
    ensures
        r == zoom_shift(s as int, from as int, to as int),
{
    floor_div(s, from) - floor_div(s, to)
}

/// Round trip: the screen corner of a cell's block maps back to that cell,
/// for every offset and every zoom of at least 1.
pub proof fn lemma_screen_world_round_trip(w: int, offset: int, zoom: int)
    requires
        zoom >= 1,
    ensures
        to_world(to_screen(w, offset, zoom), offset, zoom) == w,
{
    lemma_block_maps_back(w, offset, zoom, 0);
}

/// Every pixel of the block that shows a cell maps back to that cell, for
/// every offset and every zoom of at least 1.
pub proof fn lemma_block_maps_back(w: int, offset: int, zoom: int, d: int)
    requires
        zoom >= 1,
        0 <= d < zoom,
    ensures
        to_world(to_screen(w, offset, zoom) + d, offset, zoom) == w,
{
    let k = w + offset;
    vstd::arithmetic::div_mod::lemma_fundamental_div_mod_converse(k * zoom + d, zoom, k, d);
}

/// Zoom toward the cursor: once the offset is moved back by the shift, the
/// world point under the cursor after a change of zoom is the one that was
/// under it before.
pub proof fn lemma_zoom_keeps_cursor_point(s: int, offset: int, from: int, to: int)
    requires
        from >= 1,
        to >= 1,
    ensures
        to_world(s, offset - zoom_shift(s, from, to), to) == to_world(s, offset, from),
{
}

/// Moving `zoom` pixels along an axis moves exactly one cell.
pub proof fn lemma_zoom_pixels_per_cell(s: int, offset: int, zoom: int)
    requires
        zoom >= 1,
    ensures
        to_world(s + zoom, offset, zoom) == to_world(s, offset, zoom) + 1,
{
    vstd::arithmetic::div_mod::lemma_fundamental_div_mod(s, zoom);
    let (q, r) = (s / zoom, s % zoom);
    assert(s + zoom == zoom * (q + 1) + r) by (nonlinear_arith)
        requires
            s == zoom * q + r,
    ;
    vstd::arithmetic::div_mod::lemma_fundamental_div_mod_converse(
        s + zoom,
        zoom,
        s / zoom + 1,
        s % zoom,
    );
}

/// Zoom toward the cursor with the offset kept in whole cells by rounding:
/// where the offset put back after the shift lands within one cell of the
/// exact one (as rounding a fractional offset toward zero does), the world
/// point under the cursor moves by at most one cell.
pub proof fn lemma_zoom_cursor_within_one_cell(
    s: int,
    offset: int,
    moved: int,
    from: int,
    to: int,
)
    requires
        from >= 1,
        to >= 1,
        -1 <= moved - (offset - zoom_shift(s, from, to)) <= 1,
    ensures
        -1 <= to_world(s, moved, to) - to_world(s, offset, from) <= 1,
{
    lemma_zoom_keeps_cursor_point(s, offset, from, to);
}

} // verus!
