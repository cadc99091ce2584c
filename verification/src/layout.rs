//! The master-stack tiling layout:
//!
//! ```text
//!   gap | master | gap | stack_0 | gap
//!   gap |        | gap | stack_1 | gap
//!   ...                | stack_n | gap
//! ```
//!
//! A single tiled window fills the output less a gap on every side. With
//! more, the first in tiling order is the master column on the left, of the
//! width the caller computes from the master ratio, and the others share the
//! right column in equal slots.

use vstd::prelude::*;
use crate::window::{is_tiled, with_rect, Rect, Window, Workspace};

verus! {

/// Whether an integer fits in `i32`.
pub open spec fn in_i32(x: int) -> bool {
    i32::MIN <= x <= i32::MAX
}

/// Integer division rounding toward zero, as Rust's `/` on integers.
pub open spec fn div_trunc(a: int, b: int) -> int {
    if a >= 0 {
        a / b
    } else {
        -((-a) / b)
    }
}

/// Left edge of the stack column.
pub open spec fn stack_x(gap: int, master_w: int) -> int {
    gap + master_w + gap
}

/// Height of one stack slot when `n` windows are tiled.
pub open spec fn slot_h(n: int, h: int, gap: int) -> int {
    div_trunc(h - gap * n, n - 1)
}

/// Offset of stack slot `k` (k >= 1) below the first slot.
pub open spec fn stack_offset(k: int, n: int, h: int, gap: int) -> int {
    (k - 1) * (slot_h(n, h, gap) + gap)
}

/// The rectangle of the `k`-th tiled window (in tiling order) of `n`, on an
/// output of `w` x `h`, with the given gap and master column width.
pub open spec fn tile_rect(k: int, n: int, w: int, h: int, gap: int, master_w: int) -> Rect {
    if n == 1 {
        Rect { x: gap as i32, y: gap as i32, w: (w - gap * 2) as i32, h: (h - gap * 2) as i32 }
    } else if k == 0 {
        Rect { x: gap as i32, y: gap as i32, w: master_w as i32, h: (h - gap * 2) as i32 }
    } else {
        Rect {
            x: stack_x(gap, master_w) as i32,
            y: (gap + stack_offset(k, n, h, gap)) as i32,
            w: (w - stack_x(gap, master_w) - gap) as i32,
            h: slot_h(n, h, gap) as i32,
        }
    }
}

/// Every quantity the layout computes for `n` tiled windows fits in `i32`
/// (the layout's integer arithmetic would overflow otherwise).
pub open spec fn layout_fits(n: int, w: int, h: int, gap: int, master_w: int) -> bool {
    &&& n >= 1
    &&& in_i32(gap * 2)
    &&& in_i32(h - gap * 2)
    &&& n == 1 ==> in_i32(w - gap * 2)
    &&& n >= 2 ==> {
        &&& n <= i32::MAX
        &&& in_i32(master_w)
        &&& in_i32(gap + master_w)
        &&& in_i32(stack_x(gap, master_w))
        &&& in_i32(w - stack_x(gap, master_w))
        &&& in_i32(w - stack_x(gap, master_w) - gap)
        &&& in_i32(gap * n)
        &&& in_i32(h - gap * n)
        &&& in_i32(slot_h(n, h, gap) + gap)
        &&& forall|k: int|
            1 <= k < n ==> in_i32(#[trigger] stack_offset(k, n, h, gap)) && in_i32(
                gap + stack_offset(k, n, h, gap),
            )
    }
}

/// Computes the rectangle of the `k`-th of `n` tiled windows.
pub fn tile_rect_at(k: usize, n: usize, w: i32, h: i32, gap: i32, master_w: i32) -> (r: Rect)
    requires
        k < n,
        layout_fits(n as int, w as int, h as int, gap as int, master_w as int),
    ensures
        r == tile_rect(k as int, n as int, w as int, h as int, gap as int, master_w as int),
{
    if n == 1 {
        let win_w = w - gap * 2;
        let win_h = h - gap * 2;
        Rect { x: gap, y: gap, w: win_w, h: win_h }
    } else if k == 0 {
        let win_h = h - gap * 2;
        Rect { x: gap, y: gap, w: master_w, h: win_h }
    } else {
        let sx = gap + master_w + gap;
        let stack_w = w - sx - gap;
        let stack_count = n as i32 - 1;
        let stack_idx = k as i32 - 1;
        let usable_h = h - gap * (stack_count + 1);
        let slot = usable_h / stack_count;
        assert(stack_offset(k as int, n as int, h as int, gap as int) == stack_idx * (slot + gap));
        let y = gap + stack_idx * (slot + gap);
        Rect { x: sx, y, w: stack_w, h: slot }
    }
}


/// Window `i` comes before window `j` in tiling order: smaller `tile_order`,
/// or equal `tile_order` and earlier in the workspace (a stable sort).
pub open spec fn tiles_before(ws: Seq<Window>, i: usize, j: usize) -> bool {
    ws[i as int].tile_order < ws[j as int].tile_order || (ws[i as int].tile_order
        == ws[j as int].tile_order && i < j)
}

/// `s` lists the indices of exactly the tiled windows of `ws`, in tiling order.
pub open spec fn is_tile_order(ws: Seq<Window>, s: Seq<usize>) -> bool {
    &&& forall|t: int| 0 <= t < s.len() ==> #[trigger] s[t] < ws.len() && is_tiled(ws[s[t] as int])
    &&& forall|i: usize| i < ws.len() && #[trigger] is_tiled(ws[i as int]) ==> s.contains(i)
    &&& forall|a: int, b: int| 0 <= a < b < s.len() ==> tiles_before(ws, #[trigger] s[a], #[trigger] s[b])
}

/// Two tiling orders of the same windows are the same sequence.
pub proof fn lemma_tile_order_unique(ws: Seq<Window>, s1: Seq<usize>, s2: Seq<usize>)
    requires
        forall|t: int| 0 <= t < s1.len() ==> #[trigger] s1[t] < ws.len(),
        forall|t: int| 0 <= t < s2.len() ==> #[trigger] s2[t] < ws.len(),
        forall|a: int, b: int| 0 <= a < b < s1.len() ==> tiles_before(ws, #[trigger] s1[a], #[trigger] s1[b]),
        forall|a: int, b: int| 0 <= a < b < s2.len() ==> tiles_before(ws, #[trigger] s2[a], #[trigger] s2[b]),
        forall|x: usize| s1.contains(x) <==> s2.contains(x),
    ensures
        s1 == s2,
    decreases s1.len(),
{
    if s1.len() == 0 {
        if s2.len() > 0 {
            assert(s2.contains(s2[0]));
        }
        assert(s1 =~= s2);
    } else {
        assert(s1.contains(s1[0]));
        assert(s2.len() > 0);
        assert(s2.contains(s2[0]));
        let h1 = s1[0];
        let h2 = s2[0];
        if h1 != h2 {
            let j2 = choose|j: int| 0 <= j < s2.len() && s2[j] == h1;
            let j1 = choose|j: int| 0 <= j < s1.len() && s1[j] == h2;
            assert(j2 > 0);
            assert(j1 > 0);
            assert(tiles_before(ws, s2[0], s2[j2]));
            assert(tiles_before(ws, s1[0], s1[j1]));
            assert(false);
        }
        let t1 = s1.drop_first();
        let t2 = s2.drop_first();
        assert forall|x: usize| t1.contains(x) <==> t2.contains(x) by {
            if t1.contains(x) {
                let j = choose|j: int| 0 <= j < t1.len() && t1[j] == x;
                assert(s1[j + 1] == x);
                assert(tiles_before(ws, s1[0], s1[j + 1]));
                assert(s1.contains(x));
                assert(s2.contains(x));
                let k = choose|k: int| 0 <= k < s2.len() && s2[k] == x;
                assert(k != 0);
                assert(t2[k - 1] == x);
            }
            if t2.contains(x) {
                let j = choose|j: int| 0 <= j < t2.len() && t2[j] == x;
                assert(s2[j + 1] == x);
                assert(tiles_before(ws, s2[0], s2[j + 1]));
                assert(s2.contains(x));
                assert(s1.contains(x));
                let k = choose|k: int| 0 <= k < s1.len() && s1[k] == x;
                assert(k != 0);
                assert(t1[k - 1] == x);
            }
        }
        assert forall|a: int, b: int| 0 <= a < b < t1.len() implies tiles_before(ws, #[trigger] t1[a], #[trigger] t1[b]) by {
            assert(t1[a] == s1[a + 1] && t1[b] == s1[b + 1]);
        }
        assert forall|a: int, b: int| 0 <= a < b < t2.len() implies tiles_before(ws, #[trigger] t2[a], #[trigger] t2[b]) by {
            assert(t2[a] == s2[a + 1] && t2[b] == s2[b + 1]);
        }
        assert forall|t: int| 0 <= t < t1.len() implies #[trigger] t1[t] < ws.len() by {
            assert(t1[t] == s1[t + 1]);
        }
        assert forall|t: int| 0 <= t < t2.len() implies #[trigger] t2[t] < ws.len() by {
            assert(t2[t] == s2[t + 1]);
        }
        lemma_tile_order_unique(ws, t1, t2);
        assert(s1 =~= seq![h1] + t1);
        assert(s2 =~= seq![h2] + t2);
    }
}

/// Position of the first element of `s` that does not tile before window
/// `j` (the length when all do).
pub open spec fn first_not_before(ws: Seq<Window>, s: Seq<usize>, j: usize) -> int
    decreases s.len(),
{
    if s.len() == 0 {
        0
    } else if !tiles_before(ws, s[0], j) {
        0
    } else {
        1 + first_not_before(ws, s.drop_first(), j)
    }
}

proof fn lemma_first_not_before(ws: Seq<Window>, s: Seq<usize>, j: usize)
    ensures
        0 <= first_not_before(ws, s, j) <= s.len(),
        forall|a: int| 0 <= a < first_not_before(ws, s, j) ==> tiles_before(ws, #[trigger] s[a], j),
        first_not_before(ws, s, j) < s.len() ==> !tiles_before(ws, s[first_not_before(ws, s, j)], j),
    decreases s.len(),
{
    if s.len() > 0 && tiles_before(ws, s[0], j) {
        let t = s.drop_first();
        lemma_first_not_before(ws, t, j);
        assert forall|a: int| 0 <= a < first_not_before(ws, s, j) implies tiles_before(ws, #[trigger] s[a], j) by {
            if a > 0 {
                assert(s[a] == t[a - 1]);
            }
        }
        if first_not_before(ws, s, j) < s.len() {
            assert(s[first_not_before(ws, s, j)] == t[first_not_before(ws, t, j)]);
        }
    }
}

/// A tiling order of the windows before position `n`, built by inserting
/// each tiled window after those that tile before it.
proof fn lemma_tile_prefix_order(ws: Seq<Window>, n: int) -> (s: Seq<usize>)
    requires
        0 <= n <= ws.len(),
        ws.len() <= usize::MAX,
    ensures
        forall|t: int| 0 <= t < s.len() ==> #[trigger] s[t] < n && is_tiled(ws[s[t] as int]),
        forall|i: usize| i < n && #[trigger] is_tiled(ws[i as int]) ==> s.contains(i),
        forall|a: int, b: int| 0 <= a < b < s.len() ==> tiles_before(ws, #[trigger] s[a], #[trigger] s[b]),
    decreases n,
{
    if n == 0 {
        Seq::<usize>::empty()
    } else {
        let s0 = lemma_tile_prefix_order(ws, n - 1);
        let j = (n - 1) as usize;
        if !is_tiled(ws[n - 1]) {
            assert forall|i: usize| i < n && #[trigger] is_tiled(ws[i as int]) implies s0.contains(i) by {
                assert(i < n - 1);
            }
            s0
        } else {
            lemma_first_not_before(ws, s0, j);
            let p = first_not_before(ws, s0, j);
            let s = s0.insert(p, j);
            assert forall|t: int| 0 <= t < s.len() implies #[trigger] s[t] < n && is_tiled(ws[s[t] as int]) by {
                if t < p {
                    assert(s[t] == s0[t]);
                } else if t > p {
                    assert(s[t] == s0[t - 1]);
                }
            }
            assert forall|i: usize| i < n && #[trigger] is_tiled(ws[i as int]) implies s.contains(i) by {
                if i == j {
                    assert(s[p] == j);
                } else {
                    assert(s0.contains(i));
                    let k = choose|k: int| 0 <= k < s0.len() && s0[k] == i;
                    if k < p {
                        assert(s[k] == i);
                    } else {
                        assert(s[k + 1] == i);
                    }
                }
            }
            assert forall|a: int, b: int| 0 <= a < b < s.len() implies tiles_before(ws, #[trigger] s[a], #[trigger] s[b]) by {
                if b < p {
                    assert(s[a] == s0[a] && s[b] == s0[b]);
                } else if b == p {
                    assert(s[a] == s0[a] && s[b] == j);
                } else if a > p {
                    assert(s[a] == s0[a - 1] && s[b] == s0[b - 1]);
                } else if a < p {
                    assert(s[a] == s0[a] && s[b] == s0[b - 1]);
                } else {
                    assert(s[a] == j && s[b] == s0[b - 1]);
                    let e = s0[b - 1];
                    if b - 1 > p {
                        assert(tiles_before(ws, s0[p], e));
                    }
                    assert(!tiles_before(ws, e, j));
                    assert(e < j);
                }
            }
            s
        }
    }
}

/// Every workspace has a tiling order, so `tile_sequence` is one.
pub proof fn lemma_tile_sequence(ws: Seq<Window>)
    requires
        ws.len() <= usize::MAX,
    ensures
        is_tile_order(ws, tile_sequence(ws)),
{
    let s = lemma_tile_prefix_order(ws, ws.len() as int);
    assert(is_tile_order(ws, s));
}

/// The tiling order of a workspace's windows (unique: see
/// `lemma_tile_order_unique`).
pub open spec fn tile_sequence(ws: Seq<Window>) -> Seq<usize> {
    choose|s: Seq<usize>| is_tile_order(ws, s)
}

/// The indices of the tiled windows, in tiling order.
pub fn tile_order(windows: &Vec<Window>) -> (r: Vec<usize>)
    ensures
        is_tile_order(windows@, r@),
        r@ == tile_sequence(windows@),
{
    let n = windows.len();
    let mut r: Vec<usize> = Vec::new();
    for i in 0..n
        invariant
            n == windows@.len(),
            forall|t: int| 0 <= t < r@.len() ==> #[trigger] r@[t] < i && is_tiled(windows@[r@[t] as int]),
            forall|j: usize| j < i && #[trigger] is_tiled(windows@[j as int]) ==> r@.contains(j),
            forall|a: int, b: int| 0 <= a < b < r@.len() ==> tiles_before(windows@, #[trigger] r@[a], #[trigger] r@[b]),
    {
        if windows[i].tiled() {
            let key = windows[i].tile_order;
            let mut p: usize = 0;
            while p < r.len() && windows[r[p]].tile_order <= key
                invariant
                    p <= r@.len(),
                    i < n,
                    n == windows@.len(),
                    key == windows@[i as int].tile_order,
                    forall|t: int| 0 <= t < r@.len() ==> #[trigger] r@[t] < i,
                    forall|t: int| 0 <= t < p ==> windows@[#[trigger] r@[t] as int].tile_order <= key,
                decreases r@.len() - p,
            {
                p = p + 1;
            }
            let ghost old_r = r@;
            assert forall|t: int| p <= t < old_r.len() implies windows@[#[trigger] old_r[t] as int].tile_order > key by {
                if p < old_r.len() {
                    assert(windows@[old_r[p as int] as int].tile_order > key);
                    if t > p {
                        assert(tiles_before(windows@, old_r[p as int], old_r[t]));
                    }
                }
            }
            r.insert(p, i);
            assert forall|a: int, b: int| 0 <= a < b < r@.len() implies tiles_before(windows@, #[trigger] r@[a], #[trigger] r@[b]) by {
                if b < p {
                    assert(r@[a] == old_r[a] && r@[b] == old_r[b]);
                } else if b == p {
                    assert(r@[a] == old_r[a]);
                } else if a == p {
                    assert(r@[b] == old_r[b - 1]);
                } else if a < p {
                    assert(r@[a] == old_r[a] && r@[b] == old_r[b - 1]);
                } else {
                    assert(r@[a] == old_r[a - 1] && r@[b] == old_r[b - 1]);
                }
            }
            assert forall|j: usize| j < i + 1 && #[trigger] is_tiled(windows@[j as int]) implies r@.contains(j) by {
                if j == i {
                    assert(r@[p as int] == i);
                } else {
                    assert(old_r.contains(j));
                    let k = choose|k: int| 0 <= k < old_r.len() && old_r[k] == j;
                    if k < p {
                        assert(r@[k] == j);
                    } else {
                        assert(r@[k + 1] == j);
                    }
                }
            }
            assert forall|t: int| 0 <= t < r@.len() implies #[trigger] r@[t] < i + 1 && is_tiled(windows@[r@[t] as int]) by {
                if t < p {
                    assert(r@[t] == old_r[t]);
                } else if t > p {
                    assert(r@[t] == old_r[t - 1]);
                }
            }
        }
    }
    proof {
        assert(is_tile_order(windows@, r@));
        let s = tile_sequence(windows@);
        assert(is_tile_order(windows@, s));
        assert forall|x: usize| r@.contains(x) <==> s.contains(x) by {
            if r@.contains(x) {
                let k = choose|k: int| 0 <= k < r@.len() && r@[k] == x;
                assert(is_tiled(windows@[r@[k] as int]));
            }
            if s.contains(x) {
                let k = choose|k: int| 0 <= k < s.len() && s[k] == x;
                assert(s[k] < windows@.len() && is_tiled(windows@[s[k] as int]));
            }
        }
        lemma_tile_order_unique(windows@, r@, s);
    }
    r
}


/// The workspace after a retile: each tiled window has the rectangle of its
/// place in tiling order, and nothing else changed.
pub open spec fn retiled(
    before: Seq<Window>,
    after: Seq<Window>,
    w: int,
    h: int,
    gap: int,
    master_w: int,
) -> bool {
    let s = tile_sequence(before);
    &&& after.len() == before.len()
    &&& forall|j: int| 0 <= j < before.len() ==> #[trigger] after[j] == with_rect(before[j], after[j].rect)
    &&& forall|t: int| 0 <= t < s.len() ==> #[trigger] after[s[t] as int].rect == tile_rect(t, s.len() as int, w, h, gap, master_w)
    &&& forall|j: int| 0 <= j < before.len() && !is_tiled(before[j]) ==> #[trigger] after[j] == before[j]
}

impl Workspace {
    /// The number of windows that take part in the tiling layout.
    pub fn tiled_count(&self) -> (r: usize)
        ensures
            r == tile_sequence(self.windows@).len(),
    {
        let order = tile_order(&self.windows);
        order.len()
    }

    /// Computes the master-stack layout for the tiled windows on an output of
    /// `w` x `h`, with the given gap and master column width.
    pub fn retile(&mut self, w: i32, h: i32, gap: i32, master_w: i32)
        requires
            tile_sequence(old(self).windows@).len() >= 1 ==> layout_fits(
                tile_sequence(old(self).windows@).len() as int,
                w as int,
                h as int,
                gap as int,
                master_w as int,
            ),
        ensures
            retiled(old(self).windows@, final(self).windows@, w as int, h as int, gap as int, master_w as int),
    {
        let order = tile_order(&self.windows);
        let n = order.len();
        let ghost before = self.windows@;
        let ghost s = order@;
        for t in 0..n
            invariant
                n == s.len(),
                s == order@,
                s == tile_sequence(before),
                is_tile_order(before, s),
                n >= 1 ==> layout_fits(n as int, w as int, h as int, gap as int, master_w as int),
                self.windows@.len() == before.len(),
                forall|j: int| 0 <= j < before.len() ==> #[trigger] self.windows@[j] == with_rect(before[j], self.windows@[j].rect),
                forall|u: int| 0 <= u < t ==> #[trigger] self.windows@[s[u] as int].rect == tile_rect(u, n as int, w as int, h as int, gap as int, master_w as int),
                forall|j: int| 0 <= j < before.len() && (forall|u: int| 0 <= u < t ==> #[trigger] s[u] != j) ==> #[trigger] self.windows@[j] == before[j],
        {
            let idx = order[t];
            let rect = tile_rect_at(t, n, w, h, gap, master_w);
            let moved = self.windows[idx].moved_to(rect);
            let ghost prev = self.windows@;
            self.windows.set(idx, moved);
            assert forall|u: int| 0 <= u < t implies s[u] != idx by {
                assert(tiles_before(before, s[u], s[t as int]));
            }
            assert forall|u: int| 0 <= u < t + 1 implies #[trigger] self.windows@[s[u] as int].rect == tile_rect(u, n as int, w as int, h as int, gap as int, master_w as int) by {
                if u < t {
                    assert(prev[s[u] as int] == self.windows@[s[u] as int]);
                }
            }
            assert forall|j: int| 0 <= j < before.len() && (forall|u: int| 0 <= u < t + 1 ==> #[trigger] s[u] != j) implies #[trigger] self.windows@[j] == before[j] by {
                assert(s[t as int] != j);
                assert(self.windows@[j] == prev[j]);
            }
        }
        assert forall|j: int| 0 <= j < before.len() && !is_tiled(before[j]) implies #[trigger] self.windows@[j] == before[j] by {
            assert forall|u: int| 0 <= u < n implies #[trigger] s[u] != j by {
                assert(is_tiled(before[s[u] as int]));
            }
        }
    }
}


/// Moving windows keeps the tiling order: a workspace whose windows differ
/// from another's only in their rectangles has the same tiling order.
pub proof fn lemma_tile_sequence_ignores_rects(before: Seq<Window>, after: Seq<Window>)
    requires
        before.len() <= usize::MAX,
        after.len() == before.len(),
        forall|j: int| 0 <= j < before.len() ==> #[trigger] after[j] == with_rect(before[j], after[j].rect),
    ensures
        tile_sequence(after) == tile_sequence(before),
{
    lemma_tile_sequence(before);
    lemma_tile_sequence(after);
    let s = tile_sequence(before);
    let t = tile_sequence(after);
    assert forall|k: int| 0 <= k < before.len() implies is_tiled(#[trigger] after[k]) == is_tiled(before[k])
        && after[k].tile_order == before[k].tile_order by {
        assert(after[k] == with_rect(before[k], after[k].rect));
    }
    assert forall|a: int, b: int| 0 <= a < b < s.len() implies tiles_before(after, #[trigger] s[a], #[trigger] s[b]) by {
        assert(tiles_before(before, s[a], s[b]));
        assert(after[s[a] as int].tile_order == before[s[a] as int].tile_order);
        assert(after[s[b] as int].tile_order == before[s[b] as int].tile_order);
    }
    assert forall|x: usize| s.contains(x) <==> t.contains(x) by {
        if s.contains(x) {
            let k = choose|k: int| 0 <= k < s.len() && s[k] == x;
            assert(is_tiled(before[s[k] as int]));
            assert(is_tiled(after[x as int]));
        }
        if t.contains(x) {
            let k = choose|k: int| 0 <= k < t.len() && t[k] == x;
            assert(is_tiled(after[t[k] as int]));
            assert(is_tiled(before[x as int]));
        }
    }
    lemma_tile_order_unique(after, s, t);
}

/// Retiling is idempotent: retiling a workspace that was just retiled, with
/// the same output size, gap and master width, changes nothing.
pub proof fn lemma_retile_idempotent(
    before: Seq<Window>,
    mid: Seq<Window>,
    after: Seq<Window>,
    w: int,
    h: int,
    gap: int,
    master_w: int,
)
    requires
        before.len() <= usize::MAX,
        retiled(before, mid, w, h, gap, master_w),
        retiled(mid, after, w, h, gap, master_w),
    ensures
        after == mid,
{
    lemma_tile_sequence_ignores_rects(before, mid);
    lemma_tile_sequence(mid);
    let s = tile_sequence(mid);
    assert forall|j: int| 0 <= j < mid.len() implies #[trigger] after[j] == mid[j] by {
        if is_tiled(mid[j]) {
            assert(s.contains(j as usize));
            let t = choose|t: int| 0 <= t < s.len() && s[t] == j as usize;
            assert(after[s[t] as int].rect == tile_rect(t, s.len() as int, w, h, gap, master_w));
            assert(mid[s[t] as int].rect == tile_rect(t, s.len() as int, w, h, gap, master_w));
            assert(after[j] == with_rect(mid[j], after[j].rect));
        }
    }
    assert(after =~= mid);
}

/// A single tiled window fills the output less one gap on every side.
pub proof fn lemma_single_window_fills(w: int, h: int, gap: int, master_w: int)
    requires
        layout_fits(1, w, h, gap, master_w),
    ensures
        tile_rect(0, 1, w, h, gap, master_w).x == gap,
        tile_rect(0, 1, w, h, gap, master_w).y == gap,
        tile_rect(0, 1, w, h, gap, master_w).x + tile_rect(0, 1, w, h, gap, master_w).w + gap == w,
        tile_rect(0, 1, w, h, gap, master_w).y + tile_rect(0, 1, w, h, gap, master_w).h + gap == h,
{
}

/// With two or more tiled windows, the master column starts one gap from the
/// left and spans the height less a gap above and below; every stack slot
/// starts one gap right of the master column and ends one gap before the
/// right edge.
pub proof fn lemma_columns(k: int, n: int, w: int, h: int, gap: int, master_w: int)
    requires
        layout_fits(n, w, h, gap, master_w),
        n >= 2,
        1 <= k < n,
    ensures
        tile_rect(0, n, w, h, gap, master_w).x == gap,
        tile_rect(0, n, w, h, gap, master_w).y == gap,
        tile_rect(0, n, w, h, gap, master_w).y + tile_rect(0, n, w, h, gap, master_w).h + gap == h,
        tile_rect(0, n, w, h, gap, master_w).x + tile_rect(0, n, w, h, gap, master_w).w + gap
            == tile_rect(k, n, w, h, gap, master_w).x,
        tile_rect(k, n, w, h, gap, master_w).x + tile_rect(k, n, w, h, gap, master_w).w + gap == w,
{
}

/// Consecutive stack slots have the same height and are one gap apart; the
/// first slot starts one gap from the top.
pub proof fn lemma_stack_slots(k: int, n: int, w: int, h: int, gap: int, master_w: int)
    requires
        layout_fits(n, w, h, gap, master_w),
        n >= 3,
        1 <= k < n - 1,
    ensures
        tile_rect(1, n, w, h, gap, master_w).y == gap,
        tile_rect(k + 1, n, w, h, gap, master_w).h == tile_rect(k, n, w, h, gap, master_w).h,
        tile_rect(k + 1, n, w, h, gap, master_w).y == tile_rect(k, n, w, h, gap, master_w).y
            + tile_rect(k, n, w, h, gap, master_w).h + gap,
{
    assert(in_i32(stack_offset(k, n, h, gap)) && in_i32(gap + stack_offset(k, n, h, gap)));
    assert(in_i32(stack_offset(k + 1, n, h, gap)) && in_i32(gap + stack_offset(k + 1, n, h, gap)));
    assert(in_i32(stack_offset(1, n, h, gap)) && in_i32(gap + stack_offset(1, n, h, gap)));
    let sh = slot_h(n, h, gap);
    assert(stack_offset(k + 1, n, h, gap) == stack_offset(k, n, h, gap) + sh + gap) by (nonlinear_arith)
        requires
            stack_offset(k + 1, n, h, gap) == k * (sh + gap),
            stack_offset(k, n, h, gap) == (k - 1) * (sh + gap),
    ;
}

/// When the height left for the stack is not negative, the last stack slot
/// ends at least one gap above the bottom edge.
pub proof fn lemma_stack_bottom(n: int, w: int, h: int, gap: int, master_w: int)
    requires
        layout_fits(n, w, h, gap, master_w),
        n >= 2,
        h - gap * n >= 0,
    ensures
        tile_rect(n - 1, n, w, h, gap, master_w).y + tile_rect(n - 1, n, w, h, gap, master_w).h <= h - gap,
{
    assert(in_i32(stack_offset(n - 1, n, h, gap)) && in_i32(gap + stack_offset(n - 1, n, h, gap)));
    let u = h - gap * n;
    let sh = slot_h(n, h, gap);
    assert(sh == u / (n - 1));
    assert((n - 1) * sh <= u && 0 <= sh <= u) by (nonlinear_arith)
        requires
            n >= 2,
            u >= 0,
            sh == u / (n - 1),
    ;
    assert(stack_offset(n - 1, n, h, gap) + sh == (n - 1) * sh + (n - 2) * gap) by (nonlinear_arith)
        requires
            stack_offset(n - 1, n, h, gap) == (n - 2) * (sh + gap),
    ;
    assert(gap * n == (n - 2) * gap + gap + gap) by (nonlinear_arith);
}


/// Two rectangles share a point.
pub open spec fn overlaps(a: Rect, b: Rect) -> bool {
    a.x < b.x + b.w && b.x < a.x + a.w && a.y < b.y + b.h && b.y < a.y + a.h
}

/// Two rectangles are at least `gap` apart, horizontally or vertically.
pub open spec fn gap_apart(a: Rect, b: Rect, gap: int) -> bool {
    a.x + a.w + gap <= b.x || b.x + b.w + gap <= a.x || a.y + a.h + gap <= b.y || b.y + b.h + gap <= a.y
}

/// Offsets of stack slots grow by a slot and a gap per slot.
proof fn lemma_offset_gap(k1: int, k2: int, sh: int, gap: int)
    requires
        1 <= k1 < k2,
        sh >= 0,
        gap >= 0,
    ensures
        (k1 - 1) * (sh + gap) + sh + gap <= (k2 - 1) * (sh + gap),
{
    assert((k2 - 1) * (sh + gap) - (k1 - 1) * (sh + gap) == (k2 - k1) * (sh + gap)) by (nonlinear_arith);
    assert((k2 - k1) * (sh + gap) >= sh + gap) by (nonlinear_arith)
        requires
            k2 - k1 >= 1,
            sh + gap >= 0,
    ;
}

/// Tiles do not overlap: with a non-negative gap and master width, and an
/// output tall enough for the stack's gaps, no two tiled windows share a
/// point, and any two are at least one gap apart (side by side or one above
/// the other).
pub proof fn lemma_tiles_disjoint(k1: int, k2: int, n: int, w: int, h: int, gap: int, master_w: int)
    requires
        layout_fits(n, w, h, gap, master_w),
        0 <= k1 < k2 < n,
        gap >= 0,
        master_w >= 0,
        h - gap * n >= 0,
    ensures
        !overlaps(tile_rect(k1, n, w, h, gap, master_w), tile_rect(k2, n, w, h, gap, master_w)),
        gap_apart(tile_rect(k1, n, w, h, gap, master_w), tile_rect(k2, n, w, h, gap, master_w), gap),
{
    if k1 == 0 {
        lemma_columns(k2, n, w, h, gap, master_w);
    } else {
        assert(in_i32(stack_offset(k1, n, h, gap)) && in_i32(gap + stack_offset(k1, n, h, gap)));
        assert(in_i32(stack_offset(k2, n, h, gap)) && in_i32(gap + stack_offset(k2, n, h, gap)));
        let sh = slot_h(n, h, gap);
        let u = h - gap * n;
        assert(sh == u / (n - 1));
        assert(sh >= 0) by (nonlinear_arith)
            requires
                n >= 2,
                u >= 0,
                sh == u / (n - 1),
        ;
        lemma_offset_gap(k1, k2, sh, gap);
    }
}

/// Tiles stay on the output: with a non-negative gap and master width and
/// an output large enough for the gaps and the master column, every tiled
/// window lies inside the output, one gap from its edges.
pub proof fn lemma_tile_inside(k: int, n: int, w: int, h: int, gap: int, master_w: int)
    requires
        layout_fits(n, w, h, gap, master_w),
        0 <= k < n,
        gap >= 0,
        master_w >= 0,
        h - gap * n >= 0,
        h - gap * 2 >= 0,
        w - gap * 3 - master_w >= 0,
    ensures
        tile_rect(k, n, w, h, gap, master_w).x >= gap,
        tile_rect(k, n, w, h, gap, master_w).y >= gap,
        tile_rect(k, n, w, h, gap, master_w).w >= 0,
        tile_rect(k, n, w, h, gap, master_w).h >= 0,
        tile_rect(k, n, w, h, gap, master_w).x + tile_rect(k, n, w, h, gap, master_w).w <= w - gap,
        tile_rect(k, n, w, h, gap, master_w).y + tile_rect(k, n, w, h, gap, master_w).h <= h - gap,
{
    if n == 1 {
        assert(gap * n == gap);
    } else if k == 0 {
        assert(gap * n >= gap * 2) by (nonlinear_arith)
            requires
                n >= 2,
                gap >= 0,
        ;
        lemma_columns(1, n, w, h, gap, master_w);
    } else {
        lemma_columns(k, n, w, h, gap, master_w);
        lemma_stack_bottom(n, w, h, gap, master_w);
        assert(in_i32(stack_offset(k, n, h, gap)) && in_i32(gap + stack_offset(k, n, h, gap)));
        assert(in_i32(stack_offset(n - 1, n, h, gap)) && in_i32(gap + stack_offset(n - 1, n, h, gap)));
        let sh = slot_h(n, h, gap);
        let u = h - gap * n;
        assert(sh == u / (n - 1));
        assert(sh >= 0) by (nonlinear_arith)
            requires
                n >= 2,
                u >= 0,
                sh == u / (n - 1),
        ;
        if k < n - 1 {
            lemma_offset_gap(k, n - 1, sh, gap);
        }
        assert((k - 1) * (sh + gap) >= 0) by (nonlinear_arith)
            requires
                k >= 1,
                sh + gap >= 0,
        ;
    }
}

/// After a retile, no two tiled windows share a point and any two are at
/// least one gap apart (for a non-negative gap and master width on an output
/// tall enough for the stack's gaps).
pub proof fn lemma_retiled_disjoint(
    before: Seq<Window>,
    after: Seq<Window>,
    w: int,
    h: int,
    gap: int,
    master_w: int,
    i: int,
    j: int,
)
    requires
        before.len() <= usize::MAX,
        retiled(before, after, w, h, gap, master_w),
        layout_fits(tile_sequence(before).len() as int, w, h, gap, master_w),
        gap >= 0,
        master_w >= 0,
        h - gap * tile_sequence(before).len() >= 0,
        0 <= i < before.len(),
        0 <= j < before.len(),
        i != j,
        is_tiled(before[i]),
        is_tiled(before[j]),
    ensures
        !overlaps(after[i].rect, after[j].rect),
        gap_apart(after[i].rect, after[j].rect, gap),
{
    lemma_tile_sequence(before);
    let s = tile_sequence(before);
    let n = s.len() as int;
    assert(s.contains(i as usize));
    assert(s.contains(j as usize));
    let ti = choose|t: int| 0 <= t < s.len() && s[t] == i as usize;
    let tj = choose|t: int| 0 <= t < s.len() && s[t] == j as usize;
    assert(after[s[ti] as int].rect == tile_rect(ti, n, w, h, gap, master_w));
    assert(after[s[tj] as int].rect == tile_rect(tj, n, w, h, gap, master_w));
    if ti < tj {
        lemma_tiles_disjoint(ti, tj, n, w, h, gap, master_w);
    } else {
        assert(ti != tj);
        lemma_tiles_disjoint(tj, ti, n, w, h, gap, master_w);
    }
}

fn fits(x: i64) -> (r: bool)
    ensures
        r == in_i32(x as int),
{
    (i32::MIN as i64) <= x && x <= (i32::MAX as i64)
}

/// Offsets of the stack slots lie between those of the first and last slot.
proof fn lemma_offset_between(k: int, n: int, c: int)
    requires
        1 <= k <= n - 1,
    ensures
        c >= 0 ==> 0 <= (k - 1) * c <= (n - 2) * c,
        c < 0 ==> (n - 2) * c <= (k - 1) * c <= 0,
{
    assert(c >= 0 ==> 0 <= (k - 1) * c <= (n - 2) * c) by (nonlinear_arith)
        requires
            1 <= k <= n - 1,
    ;
    assert(c < 0 ==> (n - 2) * c <= (k - 1) * c <= 0) by (nonlinear_arith)
        requires
            1 <= k <= n - 1,
    ;
}

/// Whether the layout's arithmetic stays within `i32` for `n` tiled windows
/// (`retile` requires it when at least one window is tiled).
pub fn layout_fits_check(n: usize, w: i32, h: i32, gap: i32, master_w: i32) -> (r: bool)
    ensures
        r == (n >= 1 ==> layout_fits(n as int, w as int, h as int, gap as int, master_w as int)),
{
    if n == 0 {
        return true;
    }
    let g = gap as i64;
    let ww = w as i64;
    let hh = h as i64;
    let m = master_w as i64;
    if !(fits(g * 2) && fits(hh - g * 2)) {
        return false;
    }
    if n == 1 {
        return fits(ww - g * 2);
    }
    if n > (i32::MAX as usize) {
        return false;
    }
    let nn = n as i64;
    assert(-4611686018427387904 <= g * nn <= 4611686018427387904) by (nonlinear_arith)
        requires
            2 <= nn <= 2147483647,
            -2147483648 <= g <= 2147483647,
    ;
    let sx = g + m + g;
    if !(fits(g + m) && fits(sx) && fits(ww - sx) && fits(ww - sx - g) && fits(g * nn) && fits(
        hh - g * nn,
    )) {
        return false;
    }
    let u = hh - g * nn;
    let sh = u / (nn - 1);
    assert(sh == slot_h(n as int, h as int, gap as int));
    assert(-2147483648 <= sh <= 2147483647) by (nonlinear_arith)
        requires
            -2147483648 <= u <= 2147483647,
            nn >= 2,
            sh as int == div_trunc(u as int, nn - 1),
    ;
    if !fits(sh + g) {
        return false;
    }
    let c = sh + g;
    assert(-4611686018427387904 <= (nn - 2) * c <= 4611686018427387904) by (nonlinear_arith)
        requires
            2 <= nn <= 2147483647,
            -2147483648 <= c <= 2147483647,
    ;
    let last: i64 = (nn - 2) * c;
    let ok = fits(last) && fits(g + last);
    proof {
        assert(stack_offset(n - 1, n as int, h as int, gap as int) == last);
        if ok {
            assert forall|k: int| 1 <= k < n implies in_i32(#[trigger] stack_offset(k, n as int, h as int, gap as int)) && in_i32(gap + stack_offset(k, n as int, h as int, gap as int)) by {
                lemma_offset_between(k, n as int, c as int);
                assert(stack_offset(k, n as int, h as int, gap as int) == (k - 1) * c);
            }
        }
    }
    ok
}

} // verus!
