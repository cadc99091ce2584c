//! Popup placement: the area a popup must stay inside.

use vstd::prelude::*;
use crate::window::Rect;

verus! {

/// Whether a value fits in `i32`.
pub open spec fn fits_i32(v: int) -> bool {
    i32::MIN <= v <= i32::MAX
}

/// The output's area in the coordinates of a popup's parent surface: the
/// output rectangle (from the origin, `out_w` x `out_h`) moved back by the
/// popup's offset from its toplevel and by the toplevel's location.
pub open spec fn constraint_area(out_w: int, out_h: int, popup_x: int, popup_y: int, win_x: int, win_y: int) -> Rect {
    Rect { x: (0 - popup_x - win_x) as i32, y: (0 - popup_y - win_y) as i32, w: out_w as i32, h: out_h as i32 }
}

/// Whether `popup_constraint_target` can be computed in `i32`.
pub open spec fn constraint_fits(popup_x: int, popup_y: int, win_x: int, win_y: int) -> bool {
    fits_i32(0 - popup_x) && fits_i32(0 - popup_y) && fits_i32(0 - popup_x - win_x) && fits_i32(0 - popup_y - win_y)
}

/// The rectangle a popup is kept inside when its positioner is
/// unconstrained: the whole output, seen from the popup's parent.
pub fn popup_constraint_target(out_w: i32, out_h: i32, popup_x: i32, popup_y: i32, win_x: i32, win_y: i32) -> (r: Rect)
    requires
        constraint_fits(popup_x as int, popup_y as int, win_x as int, win_y as int),
    ensures
        r == constraint_area(out_w as int, out_h as int, popup_x as int, popup_y as int, win_x as int, win_y as int),
{
    let x = 0 - popup_x;
    let y = 0 - popup_y;
    Rect { x: x - win_x, y: y - win_y, w: out_w, h: out_h }
}

/// Whether `popup_constraint_target` can be called on these values.
pub fn constraint_fits_check(popup_x: i32, popup_y: i32, win_x: i32, win_y: i32) -> (ok: bool)
    ensures
        ok == constraint_fits(popup_x as int, popup_y as int, win_x as int, win_y as int),
{
    let px = popup_x as i64;
    let py = popup_y as i64;
    let wx = win_x as i64;
    let wy = win_y as i64;
    let lo = i32::MIN as i64;
    let hi = i32::MAX as i64;
    lo <= 0 - px && 0 - px <= hi && lo <= 0 - py && 0 - py <= hi && lo <= 0 - px - wx && 0 - px - wx <= hi
        && lo <= 0 - py - wy && 0 - py - wy <= hi
}

} // verus!
