//! What a frame draws: which surfaces, in which order, and the border
//! segments around each window.

use vstd::prelude::*;
use crate::layer::Layer;
use crate::window::{Rect, Window};

verus! {

/// Something a frame draws, front-to-back.
#[derive(Debug, Clone, Copy, PartialEq, Eq, Structural)]
pub enum PaintItem {
    /// The cursor surface that a client set.
    Cursor,
    /// The layer surface with this index.
    LayerSurface(usize),
    /// The popups of the window of the active workspace with this index.
    Popups(usize),
    /// The window of the active workspace with this index, with its subsurfaces.
    Window(usize),
}

/// A window is drawn when it is not minimized and has a non-empty size.
pub open spec fn is_drawn(w: Window) -> bool {
    !w.minimized && w.rect.w > 0 && w.rect.h > 0
}

/// The layer surfaces of layer `l` that are drawn, in their order.
pub open spec fn drawn_layers(layers: Seq<(Layer, bool)>, l: Layer) -> Seq<PaintItem>
    decreases layers.len(),
{
    if layers.len() == 0 {
        Seq::<PaintItem>::empty()
    } else {
        let rest = drawn_layers(layers.drop_last(), l);
        let last = layers.last();
        if last.1 && last.0 == l {
            rest.push(PaintItem::LayerSurface((layers.len() - 1) as usize))
        } else {
            rest
        }
    }
}

/// For each drawn window, topmost (last in stacking order) first: its popups
/// (`popups`) or the window itself.
pub open spec fn drawn_windows(ws: Seq<Window>, popups: bool) -> Seq<PaintItem>
    decreases ws.len(),
{
    if ws.len() == 0 {
        Seq::<PaintItem>::empty()
    } else {
        let rest = drawn_windows(ws.drop_last(), popups);
        let i = (ws.len() - 1) as usize;
        if is_drawn(ws.last()) {
            seq![if popups { PaintItem::Popups(i) } else { PaintItem::Window(i) }] + rest
        } else {
            rest
        }
    }
}

/// The window an item draws (or its popups); -1 for the cursor and layer
/// surfaces.
pub open spec fn item_window(p: PaintItem) -> int {
    match p {
        PaintItem::Popups(i) => i as int,
        PaintItem::Window(i) => i as int,
        _ => -1,
    }
}

/// Windows are drawn topmost first: every drawn window (not minimized, of
/// non-empty size) appears exactly in the list, only drawn windows appear,
/// and a window later in the stacking order comes before (is drawn over)
/// every earlier one.
pub proof fn lemma_windows_topmost_first(ws: Seq<Window>, popups: bool)
    requires
        ws.len() <= usize::MAX,
    ensures
        forall|t: int| 0 <= t < drawn_windows(ws, popups).len() ==> {
            let p = #[trigger] drawn_windows(ws, popups)[t];
            &&& 0 <= item_window(p) < ws.len()
            &&& is_drawn(ws[item_window(p)])
            &&& p == (if popups { PaintItem::Popups(item_window(p) as usize) } else { PaintItem::Window(item_window(p) as usize) })
        },
        forall|a: int, b: int| 0 <= a < b < drawn_windows(ws, popups).len() ==> item_window(
            #[trigger] drawn_windows(ws, popups)[a],
        ) > item_window(#[trigger] drawn_windows(ws, popups)[b]),
        forall|i: int| 0 <= i < ws.len() && is_drawn(#[trigger] ws[i]) ==> drawn_windows(ws, popups).contains(
            if popups { PaintItem::Popups(i as usize) } else { PaintItem::Window(i as usize) },
        ),
    decreases ws.len(),
{
    if ws.len() > 0 {
        let init = ws.drop_last();
        lemma_windows_topmost_first(init, popups);
        let d0 = drawn_windows(init, popups);
        let d = drawn_windows(ws, popups);
        let n = ws.len() - 1;
        assert forall|j: int| 0 <= j < init.len() implies init[j] == #[trigger] ws[j] by {}
        if is_drawn(ws.last()) {
            let item = if popups { PaintItem::Popups(n as usize) } else { PaintItem::Window(n as usize) };
            assert(d == seq![item] + d0);
            assert forall|t: int| 0 <= t < d.len() implies {
                let p = #[trigger] d[t];
                &&& 0 <= item_window(p) < ws.len()
                &&& is_drawn(ws[item_window(p)])
                &&& p == (if popups { PaintItem::Popups(item_window(p) as usize) } else { PaintItem::Window(item_window(p) as usize) })
            } by {
                if t > 0 {
                    assert(d[t] == d0[t - 1]);
                } else {
                    assert(ws[n] == ws.last());
                }
            }
            assert forall|a: int, b: int| 0 <= a < b < d.len() implies item_window(#[trigger] d[a]) > item_window(
                #[trigger] d[b],
            ) by {
                assert(d[b] == d0[b - 1]);
                if a > 0 {
                    assert(d[a] == d0[a - 1]);
                }
            }
            assert forall|i: int| 0 <= i < ws.len() && is_drawn(#[trigger] ws[i]) implies d.contains(
                if popups { PaintItem::Popups(i as usize) } else { PaintItem::Window(i as usize) },
            ) by {
                if i == n {
                    assert(d[0] == item);
                } else {
                    assert(init[i] == ws[i]);
                    let q = if popups { PaintItem::Popups(i as usize) } else { PaintItem::Window(i as usize) };
                    assert(d0.contains(q));
                    let t = choose|t: int| 0 <= t < d0.len() && d0[t] == q;
                    assert(d[t + 1] == q);
                }
            }
        } else {
            assert(d == d0);
            assert forall|i: int| 0 <= i < ws.len() && is_drawn(#[trigger] ws[i]) implies d.contains(
                if popups { PaintItem::Popups(i as usize) } else { PaintItem::Window(i as usize) },
            ) by {
                if i == n {
                    assert(ws[n] == ws.last());
                } else {
                    assert(init[i] == ws[i]);
                }
            }
        }
    }
}

/// The front-to-back order of a frame: the client's cursor surface when
/// there is one, the Overlay layer, the windows' popups, the Top layer, the
/// windows, the Bottom layer and the Background layer. Windows and their
/// popups come topmost first: the last window of the stacking order is drawn
/// over the others.
pub open spec fn paint_order_of(layers: Seq<(Layer, bool)>, ws: Seq<Window>, cursor_surface: bool) -> Seq<PaintItem> {
    (if cursor_surface { seq![PaintItem::Cursor] } else { Seq::<PaintItem>::empty() })
        + drawn_layers(layers, Layer::Overlay) + drawn_windows(ws, true) + drawn_layers(layers, Layer::Top)
        + drawn_windows(ws, false) + drawn_layers(layers, Layer::Bottom) + drawn_layers(layers, Layer::Background)
}

fn push_drawn_layers(out: &mut Vec<PaintItem>, layers: &Vec<(Layer, bool)>, l: Layer)
    ensures
        final(out)@ == old(out)@ + drawn_layers(layers@, l),
{
    let ghost start = out@;
    let n = layers.len();
    assert(layers@.take(0) =~= Seq::<(Layer, bool)>::empty());
    assert(out@ =~= start + drawn_layers(layers@.take(0), l));
    for i in 0..n
        invariant
            n == layers@.len(),
            out@ == start + drawn_layers(layers@.take(i as int), l),
    {
        assert(layers@.take(i + 1).drop_last() =~= layers@.take(i as int));
        let (kind, alive) = layers[i];
        if alive && kind == l {
            out.push(PaintItem::LayerSurface(i));
            assert(out@ =~= start + drawn_layers(layers@.take(i + 1), l));
        }
    }
    assert(layers@.take(n as int) =~= layers@);
}

fn push_drawn_windows(out: &mut Vec<PaintItem>, ws: &Vec<Window>, popups: bool)
    ensures
        final(out)@ == old(out)@ + drawn_windows(ws@, popups),
{
    let ghost start = out@;
    let n = ws.len();
    let mut k = n;
    assert(ws@.take(n as int) =~= ws@);
    assert(start + drawn_windows(ws@, popups) =~= out@ + drawn_windows(ws@.take(k as int), popups));
    while k > 0
        invariant
            k <= n,
            n == ws@.len(),
            start + drawn_windows(ws@, popups) == out@ + drawn_windows(ws@.take(k as int), popups),
        decreases k,
    {
        let i = k - 1;
        let ghost pre = ws@.take(k as int);
        assert(pre.drop_last() =~= ws@.take(i as int));
        assert(pre.last() == ws@[i as int]);
        let w = &ws[i];
        if !w.minimized && w.rect.w > 0 && w.rect.h > 0 {
            let item = if popups { PaintItem::Popups(i) } else { PaintItem::Window(i) };
            out.push(item);
            assert(out@ + drawn_windows(ws@.take(i as int), popups) =~= (out@.drop_last() + seq![item])
                + drawn_windows(ws@.take(i as int), popups));
        }
        k = i;
    }
    assert(ws@.take(0) =~= Seq::<Window>::empty());
    assert(out@ =~= start + drawn_windows(ws@, popups));
}

/// What a frame draws, front-to-back, given each layer surface's layer and
/// whether it is drawn (alive, with a geometry), the windows of the active
/// workspace, and whether a client set a cursor surface.
pub fn paint_order(layers: &Vec<(Layer, bool)>, windows: &Vec<Window>, cursor_surface: bool) -> (r: Vec<PaintItem>)
    ensures
        r@ == paint_order_of(layers@, windows@, cursor_surface),
{
    let mut out: Vec<PaintItem> = Vec::new();
    if cursor_surface {
        out.push(PaintItem::Cursor);
    }
    assert(out@ =~= (if cursor_surface { seq![PaintItem::Cursor] } else { Seq::<PaintItem>::empty() }));
    push_drawn_layers(&mut out, layers, Layer::Overlay);
    push_drawn_windows(&mut out, windows, true);
    push_drawn_layers(&mut out, layers, Layer::Top);
    push_drawn_windows(&mut out, windows, false);
    push_drawn_layers(&mut out, layers, Layer::Bottom);
    push_drawn_layers(&mut out, layers, Layer::Background);
    out
}

/// The four border segments drawn around a window.
#[derive(Debug, Clone, Copy, PartialEq, Eq, Structural)]
pub struct BorderSegments {
    pub top: Rect,
    pub bottom: Rect,
    pub left: Rect,
    pub right: Rect,
}

/// Whether a rectangle holds a point.
pub open spec fn holds_point(r: Rect, px: int, py: int) -> bool {
    r.x <= px < r.x + r.w && r.y <= py < r.y + r.h
}

/// Whether the border of width `bw` around the window rectangle `r` can be
/// computed in `i32`.
pub open spec fn border_fits(r: Rect, bw: int) -> bool {
    let lo = i32::MIN as int;
    let hi = i32::MAX as int;
    &&& lo <= r.x - bw
    &&& lo <= r.y - bw
    &&& lo <= r.x + r.w <= hi
    &&& lo <= r.y + r.h <= hi
    &&& 2 * bw <= hi
    &&& r.w + 2 * bw <= hi
    &&& r.w + 2 * bw >= lo
    &&& bw >= 0
}

/// The border segments around window rectangle `r` with width `bw`: top
/// and bottom span the window's width plus both corners, left and right
/// its height.
pub open spec fn border_of(r: Rect, bw: int) -> BorderSegments {
    BorderSegments {
        top: Rect { x: (r.x - bw) as i32, y: (r.y - bw) as i32, w: (r.w + 2 * bw) as i32, h: bw as i32 },
        bottom: Rect { x: (r.x - bw) as i32, y: (r.y + r.h) as i32, w: (r.w + 2 * bw) as i32, h: bw as i32 },
        left: Rect { x: (r.x - bw) as i32, y: r.y, w: bw as i32, h: r.h },
        right: Rect { x: (r.x + r.w) as i32, y: r.y, w: bw as i32, h: r.h },
    }
}

/// The four border segments around a window rectangle (both in physical
/// pixels), `bw` wide.
pub fn border_segments(r: Rect, bw: i32) -> (b: BorderSegments)
    requires
        border_fits(r, bw as int),
    ensures
        b == border_of(r, bw as int),
{
    BorderSegments {
        top: Rect { x: r.x - bw, y: r.y - bw, w: r.w + bw * 2, h: bw },
        bottom: Rect { x: r.x - bw, y: r.y + r.h, w: r.w + bw * 2, h: bw },
        left: Rect { x: r.x - bw, y: r.y, w: bw, h: r.h },
        right: Rect { x: r.x + r.w, y: r.y, w: bw, h: r.h },
    }
}

/// Whether `border_segments` can be called: the border fits in `i32`.
pub fn border_fits_check(r: Rect, bw: i32) -> (ok: bool)
    ensures
        ok == border_fits(r, bw as int),
{
    let x = r.x as i64;
    let y = r.y as i64;
    let w = r.w as i64;
    let h = r.h as i64;
    let b = bw as i64;
    let lo = i32::MIN as i64;
    let hi = i32::MAX as i64;
    lo <= x - b && lo <= y - b && lo <= x + w && x + w <= hi && lo <= y + h && y + h <= hi && 2 * b <= hi && w + 2 * b <= hi && w + 2 * b >= lo && b >= 0
}

/// The border frames the window: for a window of non-negative size, a point
/// lies in one of the four segments exactly when it lies in the window
/// grown by `bw` on every side but not in the window itself, and no two
/// segments share a point.
pub proof fn lemma_border_frames_window(r: Rect, bw: int, px: int, py: int)
    requires
        border_fits(r, bw),
        r.w >= 0,
        r.h >= 0,
    ensures
        ({
            let b = border_of(r, bw);
            let outer_x = r.x - bw <= px < r.x + r.w + bw;
            let outer_y = r.y - bw <= py < r.y + r.h + bw;
            &&& (holds_point(b.top, px, py) || holds_point(b.bottom, px, py) || holds_point(b.left, px, py)
                || holds_point(b.right, px, py)) <==> (outer_x && outer_y && !holds_point(r, px, py))
            &&& !(holds_point(b.top, px, py) && holds_point(b.bottom, px, py))
            &&& !(holds_point(b.top, px, py) && holds_point(b.left, px, py))
            &&& !(holds_point(b.top, px, py) && holds_point(b.right, px, py))
            &&& !(holds_point(b.bottom, px, py) && holds_point(b.left, px, py))
            &&& !(holds_point(b.bottom, px, py) && holds_point(b.right, px, py))
            &&& !(holds_point(b.left, px, py) && holds_point(b.right, px, py))
        }),
{
}

} // verus!
