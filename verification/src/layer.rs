//! Layer-shell surfaces (bars, docks, backgrounds): their placement on the
//! output and the order in which the pointer looks for the surface under it.

use vstd::prelude::*;
use crate::layout::div_trunc;
use crate::window::{Rect, Window};

verus! {

/// The layers, from bottom to top (application windows lie between Bottom
/// and Top).
#[derive(Debug, Clone, Copy, PartialEq, Eq, Structural)]
pub enum Layer {
    Background,
    Bottom,
    Top,
    Overlay,
}

/// The edges a layer surface is anchored to.
#[derive(Debug, Clone, Copy, PartialEq, Eq, Structural)]
pub struct Anchor {
    pub top: bool,
    pub bottom: bool,
    pub left: bool,
    pub right: bool,
}

/// The margins a layer surface asks for.
#[derive(Debug, Clone, Copy, PartialEq, Eq, Structural)]
pub struct Margins {
    pub top: i32,
    pub right: i32,
    pub bottom: i32,
    pub left: i32,
}

/// Horizontal position: at the left margin when anchored left (alone or
/// with right, to stretch), at the right margin when anchored right only,
/// centered when anchored on neither side.
pub open spec fn layer_x(sw: int, a: Anchor, m: Margins, out_w: int) -> int {
    if a.left {
        m.left as int
    } else if a.right {
        out_w - sw - m.right
    } else {
        div_trunc(out_w - sw, 2)
    }
}

/// Width: the output's less both margins when anchored left and right,
/// else the surface's own.
pub open spec fn layer_w(sw: int, a: Anchor, m: Margins, out_w: int) -> int {
    if a.left && a.right {
        out_w - m.left - m.right
    } else {
        sw
    }
}

/// Vertical position, as `layer_x` with top and bottom.
pub open spec fn layer_y(sh: int, a: Anchor, m: Margins, out_h: int) -> int {
    if a.top {
        m.top as int
    } else if a.bottom {
        out_h - sh - m.bottom
    } else {
        div_trunc(out_h - sh, 2)
    }
}

pub open spec fn layer_h(sh: int, a: Anchor, m: Margins, out_h: int) -> int {
    if a.top && a.bottom {
        out_h - m.top - m.bottom
    } else {
        sh
    }
}

/// The rectangle of a layer surface of size `sw` x `sh` on an output of
/// `out_w` x `out_h`; `None` before the surface asked for a size.
pub open spec fn layer_rect(sw: int, sh: int, a: Anchor, m: Margins, out_w: int, out_h: int) -> Option<Rect> {
    if sw == 0 && sh == 0 {
        None
    } else {
        Some(
            Rect {
                x: layer_x(sw, a, m, out_w) as i32,
                y: layer_y(sh, a, m, out_h) as i32,
                w: layer_w(sw, a, m, out_w) as i32,
                h: layer_h(sh, a, m, out_h) as i32,
            },
        )
    }
}

/// The subtractions that place the surface stay within `i32`.
pub open spec fn layer_fits(sw: int, sh: int, a: Anchor, m: Margins, out_w: int, out_h: int) -> bool {
    let in32 = |x: int| i32::MIN <= x <= i32::MAX;
    !(sw == 0 && sh == 0) ==> {
        &&& (a.right && !a.left) ==> in32(out_w - sw) && in32(out_w - sw - m.right)
        &&& (!a.right && !a.left) ==> in32(out_w - sw)
        &&& (!a.bottom && !a.top) ==> in32(out_h - sh)
        &&& (a.left && a.right) ==> in32(out_w - m.left) && in32(out_w - m.left - m.right)
        &&& (a.bottom && !a.top) ==> in32(out_h - sh) && in32(out_h - sh - m.bottom)
        &&& (a.top && a.bottom) ==> in32(out_h - m.top) && in32(out_h - m.top - m.bottom)
    }
}

/// Where a layer surface lands: a surface that asked no size is not placed;
/// otherwise, on each axis, anchoring to the near edge puts it one margin
/// from that edge, anchoring to the far edge only puts its far side one
/// margin before the output's far edge, anchoring to both stretches it
/// between the two margins, and anchoring to neither centers it (the space
/// left and right differ by at most one pixel).
pub proof fn lemma_layer_edges(sw: int, sh: int, a: Anchor, m: Margins, out_w: int, out_h: int)
    requires
        i32::MIN <= sw <= i32::MAX,
        i32::MIN <= sh <= i32::MAX,
        i32::MIN <= out_w <= i32::MAX,
        i32::MIN <= out_h <= i32::MAX,
        layer_fits(sw, sh, a, m, out_w, out_h),
    ensures
        (sw == 0 && sh == 0) <==> layer_rect(sw, sh, a, m, out_w, out_h) is None,
        layer_rect(sw, sh, a, m, out_w, out_h) matches Some(r) ==> {
            &&& a.left ==> r.x == m.left
            &&& a.right && !a.left ==> r.w == sw && r.x + r.w == out_w - m.right
            &&& a.left && a.right ==> r.x + r.w == out_w - m.right
            &&& !a.left && !a.right ==> r.w == sw && (out_w >= sw ==> 0 <= r.x && r.x + r.w + r.x <= out_w <= r.x
                + r.w + r.x + 1)
            &&& a.top ==> r.y == m.top
            &&& a.bottom && !a.top ==> r.h == sh && r.y + r.h == out_h - m.bottom
            &&& a.top && a.bottom ==> r.y + r.h == out_h - m.bottom
            &&& !a.top && !a.bottom ==> r.h == sh && (out_h >= sh ==> 0 <= r.y && r.y + r.h + r.y <= out_h <= r.y
                + r.h + r.y + 1)
        },
{
}

/// The global rectangle of a layer surface from its size, anchor and
/// margins; `None` while it has not asked for a size.
pub fn layer_surface_geometry(sw: i32, sh: i32, anchor: Anchor, margins: Margins, out_w: i32, out_h: i32) -> (r: Option<Rect>)
    requires
        layer_fits(sw as int, sh as int, anchor, margins, out_w as int, out_h as int),
    ensures
        r == layer_rect(sw as int, sh as int, anchor, margins, out_w as int, out_h as int),
{
    if sw == 0 && sh == 0 {
        return None;
    }
    let x = if anchor.left {
        margins.left
    } else if anchor.right {
        out_w - sw - margins.right
    } else {
        (out_w - sw) / 2
    };
    let w = if anchor.left && anchor.right {
        out_w - margins.left - margins.right
    } else {
        sw
    };
    let y = if anchor.top {
        margins.top
    } else if anchor.bottom {
        out_h - sh - margins.bottom
    } else {
        (out_h - sh) / 2
    };
    let h = if anchor.top && anchor.bottom {
        out_h - margins.top - margins.bottom
    } else {
        sh
    };
    Some(Rect { x, y, w, h })
}

fn fits(x: i64) -> (r: bool)
    ensures
        r == (i32::MIN <= x <= i32::MAX),
{
    (i32::MIN as i64) <= x && x <= (i32::MAX as i64)
}

/// Whether `layer_surface_geometry` may be called with these values.
pub fn layer_fits_check(sw: i32, sh: i32, anchor: Anchor, margins: Margins, out_w: i32, out_h: i32) -> (r: bool)
    ensures
        r == layer_fits(sw as int, sh as int, anchor, margins, out_w as int, out_h as int),
{
    if sw == 0 && sh == 0 {
        return true;
    }
    let (sw, sh, ow, oh) = (sw as i64, sh as i64, out_w as i64, out_h as i64);
    let (mt, mr, mb, ml) = (margins.top as i64, margins.right as i64, margins.bottom as i64, margins.left as i64);
    (!(anchor.right && !anchor.left) || (fits(ow - sw) && fits(ow - sw - mr)))
        && (anchor.right || anchor.left || fits(ow - sw))
        && (anchor.bottom || anchor.top || fits(oh - sh))
        && (!(anchor.left && anchor.right) || (fits(ow - ml) && fits(ow - ml - mr)))
        && (!(anchor.bottom && !anchor.top) || (fits(oh - sh) && fits(oh - sh - mb)))
        && (!(anchor.top && anchor.bottom) || (fits(oh - mt) && fits(oh - mt - mb)))
}

/// A place where the pointer looks for the surface under it.
#[derive(Debug, Clone, Copy, PartialEq, Eq, Structural)]
pub enum HitCandidate {
    /// The layer surface with this index.
    LayerSurface(usize),
    /// The window of the active workspace with this index (its popups
    /// first, then the window itself).
    Window(usize),
}

/// Indices of the live layer surfaces of layer `l`, topmost (last) first.
pub open spec fn layer_candidates(layers: Seq<(Layer, bool)>, l: Layer) -> Seq<HitCandidate>
    decreases layers.len(),
{
    if layers.len() == 0 {
        Seq::<HitCandidate>::empty()
    } else {
        let rest = layer_candidates(layers.drop_last(), l);
        let last = layers.last();
        if last.1 && last.0 == l {
            seq![HitCandidate::LayerSurface((layers.len() - 1) as usize)] + rest
        } else {
            rest
        }
    }
}

/// Indices of the windows that are not minimized, topmost (last) first.
pub open spec fn window_candidates(ws: Seq<Window>) -> Seq<HitCandidate>
    decreases ws.len(),
{
    if ws.len() == 0 {
        Seq::<HitCandidate>::empty()
    } else {
        let rest = window_candidates(ws.drop_last());
        if !ws.last().minimized {
            seq![HitCandidate::Window((ws.len() - 1) as usize)] + rest
        } else {
            rest
        }
    }
}

/// The window a hit candidate names; -1 for a layer surface.
pub open spec fn candidate_window(c: HitCandidate) -> int {
    match c {
        HitCandidate::Window(i) => i as int,
        HitCandidate::LayerSurface(_) => -1,
    }
}

/// The pointer tries windows topmost first: exactly the windows that are not
/// minimized are tried, and a window later in the stacking order is tried
/// before every earlier one.
pub proof fn lemma_hit_windows_topmost_first(ws: Seq<Window>)
    requires
        ws.len() <= usize::MAX,
    ensures
        forall|t: int| 0 <= t < window_candidates(ws).len() ==> {
            let c = #[trigger] window_candidates(ws)[t];
            &&& 0 <= candidate_window(c) < ws.len()
            &&& !ws[candidate_window(c)].minimized
            &&& c == HitCandidate::Window(candidate_window(c) as usize)
        },
        forall|a: int, b: int| 0 <= a < b < window_candidates(ws).len() ==> candidate_window(
            #[trigger] window_candidates(ws)[a],
        ) > candidate_window(#[trigger] window_candidates(ws)[b]),
        forall|i: int| 0 <= i < ws.len() && !(#[trigger] ws[i]).minimized ==> window_candidates(ws).contains(
            HitCandidate::Window(i as usize),
        ),
    decreases ws.len(),
{
    if ws.len() > 0 {
        let init = ws.drop_last();
        lemma_hit_windows_topmost_first(init);
        let d0 = window_candidates(init);
        let d = window_candidates(ws);
        let n = ws.len() - 1;
        assert forall|j: int| 0 <= j < init.len() implies init[j] == #[trigger] ws[j] by {}
        if !ws.last().minimized {
            let item = HitCandidate::Window(n as usize);
            assert(d == seq![item] + d0);
            assert forall|t: int| 0 <= t < d.len() implies {
                let c = #[trigger] d[t];
                &&& 0 <= candidate_window(c) < ws.len()
                &&& !ws[candidate_window(c)].minimized
                &&& c == HitCandidate::Window(candidate_window(c) as usize)
            } by {
                if t > 0 {
                    assert(d[t] == d0[t - 1]);
                } else {
                    assert(ws[n] == ws.last());
                }
            }
            assert forall|a: int, b: int| 0 <= a < b < d.len() implies candidate_window(#[trigger] d[a])
                > candidate_window(#[trigger] d[b]) by {
                assert(d[b] == d0[b - 1]);
                if a > 0 {
                    assert(d[a] == d0[a - 1]);
                }
            }
            assert forall|i: int| 0 <= i < ws.len() && !(#[trigger] ws[i]).minimized implies d.contains(
                HitCandidate::Window(i as usize),
            ) by {
                if i == n {
                    assert(d[0] == item);
                } else {
                    assert(init[i] == ws[i]);
                    let q = HitCandidate::Window(i as usize);
                    assert(d0.contains(q));
                    let t = choose|t: int| 0 <= t < d0.len() && d0[t] == q;
                    assert(d[t + 1] == q);
                }
            }
        } else {
            assert(d == d0);
            assert forall|i: int| 0 <= i < ws.len() && !(#[trigger] ws[i]).minimized implies d.contains(
                HitCandidate::Window(i as usize),
            ) by {
                if i == n {
                    assert(ws[n] == ws.last());
                } else {
                    assert(init[i] == ws[i]);
                }
            }
        }
    }
}

/// The order in which the pointer looks for a surface: Overlay layer, Top
/// layer, windows (each with its popups), Bottom layer, Background layer;
/// within each, topmost first.
pub open spec fn hit_order(layers: Seq<(Layer, bool)>, ws: Seq<Window>) -> Seq<HitCandidate> {
    layer_candidates(layers, Layer::Overlay) + layer_candidates(layers, Layer::Top) + window_candidates(ws)
        + layer_candidates(layers, Layer::Bottom) + layer_candidates(layers, Layer::Background)
}

fn push_layer_candidates(out: &mut Vec<HitCandidate>, layers: &Vec<(Layer, bool)>, l: Layer)
    ensures
        final(out)@ == old(out)@ + layer_candidates(layers@, l),
{
    let ghost start = out@;
    let n = layers.len();
    let mut k = n;
    assert(layers@.take(n as int) =~= layers@);
    while k > 0
        invariant
            k <= n,
            n == layers@.len(),
            start + layer_candidates(layers@, l) == out@ + layer_candidates(layers@.take(k as int), l),
        decreases k,
    {
        let i = k - 1;
        let ghost pre = layers@.take(k as int);
        assert(pre.drop_last() =~= layers@.take(i as int));
        let (kind, alive) = layers[i];
        if alive && kind == l {
            out.push(HitCandidate::LayerSurface(i));
            assert(layer_candidates(pre, l) == seq![HitCandidate::LayerSurface(i)] + layer_candidates(layers@.take(i as int), l));
            assert(out@ + layer_candidates(layers@.take(i as int), l) =~= (out@.drop_last() + seq![HitCandidate::LayerSurface(i)]) + layer_candidates(layers@.take(i as int), l));
        }
        k = i;
    }
    assert(layers@.take(0) =~= Seq::<(Layer, bool)>::empty());
    assert(out@ =~= start + layer_candidates(layers@, l));
}

/// The order in which the pointer looks for the surface under it, given
/// each layer surface's layer and whether it is alive, and the windows of
/// the active workspace.
pub fn hit_test_order(layers: &Vec<(Layer, bool)>, windows: &Vec<Window>) -> (r: Vec<HitCandidate>)
    ensures
        r@ == hit_order(layers@, windows@),
{
    let mut out: Vec<HitCandidate> = Vec::new();
    push_layer_candidates(&mut out, layers, Layer::Overlay);
    push_layer_candidates(&mut out, layers, Layer::Top);
    let ghost before_windows = out@;
    let n = windows.len();
    let mut k = n;
    assert(windows@.take(n as int) =~= windows@);
    while k > 0
        invariant
            k <= n,
            n == windows@.len(),
            before_windows + window_candidates(windows@) == out@ + window_candidates(windows@.take(k as int)),
        decreases k,
    {
        let i = k - 1;
        let ghost pre = windows@.take(k as int);
        assert(pre.drop_last() =~= windows@.take(i as int));
        if !windows[i].minimized {
            out.push(HitCandidate::Window(i));
            assert(out@ + window_candidates(windows@.take(i as int)) =~= (out@.drop_last() + seq![HitCandidate::Window(i)]) + window_candidates(windows@.take(i as int)));
        }
        k = i;
    }
    assert(windows@.take(0) =~= Seq::<Window>::empty());
    push_layer_candidates(&mut out, layers, Layer::Bottom);
    push_layer_candidates(&mut out, layers, Layer::Background);
    assert(out@ =~= hit_order(layers@, windows@));
    out
}

} // verus!
