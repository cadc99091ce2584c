//! X11 windows (through Xwayland): geometry of configure requests.

use vstd::prelude::*;
use crate::window::Rect;

verus! {

/// The geometry an X11 window asks for: each given field replaces the
/// current one (sizes arrive unsigned and are taken as `i32`).
pub open spec fn configured(geo: Rect, x: Option<i32>, y: Option<i32>, w: Option<u32>, h: Option<u32>) -> Rect {
    Rect {
        x: match x {
            Some(v) => v,
            None => geo.x,
        },
        y: match y {
            Some(v) => v,
            None => geo.y,
        },
        w: match w {
            Some(v) => v as i32,
            None => geo.w,
        },
        h: match h {
            Some(v) => v as i32,
            None => geo.h,
        },
    }
}

/// Applies an X11 configure request to a window's current geometry.
pub fn configure_request_geometry(geo: Rect, x: Option<i32>, y: Option<i32>, w: Option<u32>, h: Option<u32>) -> (r: Rect)
    ensures
        r == configured(geo, x, y, w, h),
{
    let mut g = geo;
    if let Some(v) = x {
        g.x = v;
    }
    if let Some(v) = y {
        g.y = v;
    }
    if let Some(v) = w {
        g.w = v as i32;
    }
    if let Some(v) = h {
        g.h = v as i32;
    }
    g
}

} // verus!
