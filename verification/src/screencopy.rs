//! Geometry of screen captures requested through wlr-screencopy.

use vstd::prelude::*;
use crate::window::Rect;

verus! {

/// `v` clamped to `lo ..= hi` (as `i32::clamp`, which requires `lo <= hi`).
pub open spec fn clamp(v: int, lo: int, hi: int) -> int {
    if v < lo {
        lo
    } else if v > hi {
        hi
    } else {
        v
    }
}

fn clamp_i32(v: i32, lo: i32, hi: i32) -> (r: i32)
    requires
        lo <= hi,
    ensures
        r == clamp(v as int, lo as int, hi as int),
{
    if v < lo {
        lo
    } else if v > hi {
        hi
    } else {
        v
    }
}

/// The region a client asked to capture, clamped to the output: the corner
/// into the output, the size to at least one pixel and at most what is left
/// of the output (but one pixel when nothing is).
pub open spec fn capture_rect(x: int, y: int, width: int, height: int, out_w: int, out_h: int) -> Rect {
    let rx = clamp(x, 0, out_w);
    let ry = clamp(y, 0, out_h);
    let max_w = if out_w - rx >= 1 { out_w - rx } else { 1 };
    let max_h = if out_h - ry >= 1 { out_h - ry } else { 1 };
    Rect {
        x: rx as i32,
        y: ry as i32,
        w: clamp(width, 1, max_w) as i32,
        h: clamp(height, 1, max_h) as i32,
    }
}

/// Clamps a capture region to an output of `out_w` x `out_h`.
pub fn capture_region(x: i32, y: i32, width: i32, height: i32, out_w: i32, out_h: i32) -> (r: Rect)
    requires
        out_w >= 0,
        out_h >= 0,
    ensures
        r == capture_rect(x as int, y as int, width as int, height as int, out_w as int, out_h as int),
        0 <= r.x <= out_w,
        0 <= r.y <= out_h,
        r.w >= 1,
        r.h >= 1,
        r.x < out_w ==> r.x + r.w <= out_w,
        r.y < out_h ==> r.y + r.h <= out_h,
{
    let rx = clamp_i32(x, 0, out_w);
    let ry = clamp_i32(y, 0, out_h);
    let left_w = out_w - rx;
    let left_h = out_h - ry;
    let max_w = if left_w >= 1 { left_w } else { 1 };
    let max_h = if left_h >= 1 { left_h } else { 1 };
    let rw = clamp_i32(width, 1, max_w);
    let rh = clamp_i32(height, 1, max_h);
    Rect { x: rx, y: ry, w: rw, h: rh }
}

/// The shm buffer a capture of `w` x `h` needs: width, height and stride
/// (four bytes per pixel), as the protocol's unsigned values.
pub fn shm_buffer_info(w: i32, h: i32) -> (r: (u32, u32, u32))
    requires
        i32::MIN <= w * 4 <= i32::MAX,
    ensures
        r.0 == w as u32,
        r.1 == h as u32,
        r.2 == (w * 4) as u32,
{
    (w as u32, h as u32, (w * 4) as u32)
}

} // verus!
