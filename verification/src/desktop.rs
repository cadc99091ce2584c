//! The desktop: nine workspaces, the active one, and the operations that
//! move, focus, raise, place and remove windows.

use vstd::prelude::*;
use crate::layout::{layout_fits, retiled, tile_sequence};
use crate::config::{opt_str_view, opt_string_view, ActionSpec, FloatingConfig, KeyAction, ParsedKeybind, WindowRule};
use crate::layout::div_trunc;
use crate::window::{Rect, Window, Workspace};

verus! {

/// The number of workspaces.
pub const WORKSPACE_COUNT: usize = 9;

/// The windows of every workspace.
pub open spec fn workspaces_view(ws: Seq<Workspace>) -> Seq<Seq<Window>> {
    ws.map_values(|w: Workspace| w.windows@)
}

/// No two windows of the desktop share a handle.
pub open spec fn handles_distinct(ws: Seq<Seq<Window>>) -> bool {
    forall|a: int, i: int, b: int, j: int|
        0 <= a < ws.len() && 0 <= b < ws.len() && 0 <= i < ws[a].len() && 0 <= j < ws[b].len() && (a
            != b || i != j) ==> #[trigger] ws[a][i].handle != #[trigger] ws[b][j].handle
}

/// Some window of the desktop has this handle.
pub open spec fn holds_handle(ws: Seq<Seq<Window>>, h: u64) -> bool {
    exists|a: int, i: int| 0 <= a < ws.len() && 0 <= i < ws[a].len() && #[trigger] ws[a][i].handle == h
}

/// The compositor's workspaces and the index of the active one.
#[derive(Debug)]
pub struct Desktop {
    pub workspaces: Vec<Workspace>,
    pub active_workspace: usize,
}

impl Desktop {
    /// The windows of every workspace.
    pub open spec fn spaces(&self) -> Seq<Seq<Window>> {
        workspaces_view(self.workspaces@)
    }

    /// The windows of the active workspace.
    pub open spec fn active_windows(&self) -> Seq<Window> {
        self.workspaces@[self.active_workspace as int].windows@
    }

    /// Nine workspaces, a valid active index, and distinct window handles.
    pub open spec fn wf(&self) -> bool {
        &&& self.workspaces@.len() == WORKSPACE_COUNT
        &&& self.active_workspace < WORKSPACE_COUNT
        &&& handles_distinct(self.spaces())
    }

    /// Nine empty workspaces, the first one active.
    pub fn new() -> (r: Desktop)
        ensures
            r.wf(),
            r.active_workspace == 0,
            forall|a: int| 0 <= a < WORKSPACE_COUNT ==> #[trigger] r.spaces()[a].len() == 0,
    {
        let mut workspaces: Vec<Workspace> = Vec::new();
        for i in 0..WORKSPACE_COUNT
            invariant
                workspaces@.len() == i,
                forall|a: int| 0 <= a < i ==> #[trigger] workspaces@[a].windows@.len() == 0,
        {
            workspaces.push(Workspace { windows: Vec::new() });
        }
        let r = Desktop { workspaces, active_workspace: 0 };
        assert(handles_distinct(r.spaces()));
        r
    }

    /// The windows of the active workspace.
    pub fn windows(&self) -> (r: &Vec<Window>)
        requires
            self.wf(),
        ensures
            r@ == self.active_windows(),
    {
        &self.workspaces[self.active_workspace].windows
    }

    /// The windows of the active workspace, to change in place. Changes made
    /// through it are the caller's to keep the handles distinct.
    pub fn windows_mut(&mut self) -> (r: &mut Vec<Window>)
        requires
            old(self).active_workspace < old(self).workspaces@.len(),
        ensures
            *r == old(self).workspaces@[old(self).active_workspace as int].windows,
            final(self).active_workspace == old(self).active_workspace,
            final(self).workspaces@ == old(self).workspaces@.update(
                old(self).active_workspace as int,
                Workspace { windows: *final(r) },
            ),
    {
        let a = self.active_workspace;
        &mut self.workspaces[a].windows
    }

    /// Makes workspace `idx` the active one.
    pub fn switch_workspace(&mut self, idx: usize)
        requires
            old(self).wf(),
            idx < WORKSPACE_COUNT,
        ensures
            final(self).wf(),
            final(self).active_workspace == idx,
            final(self).spaces() == old(self).spaces(),
    {
        self.active_workspace = idx;
    }
}


impl Desktop {
    /// The number of tiled windows of the active workspace.
    pub fn tiled_count(&self) -> (r: usize)
        requires
            self.wf(),
        ensures
            r == tile_sequence(self.active_windows()).len(),
    {
        self.workspaces[self.active_workspace].tiled_count()
    }

    /// Lays out the active workspace (see `Workspace::retile`).
    pub fn retile(&mut self, w: i32, h: i32, gap: i32, master_w: i32)
        requires
            old(self).wf(),
            tile_sequence(old(self).active_windows()).len() >= 1 ==> layout_fits(
                tile_sequence(old(self).active_windows()).len() as int,
                w as int,
                h as int,
                gap as int,
                master_w as int,
            ),
        ensures
            final(self).wf(),
            final(self).active_workspace == old(self).active_workspace,
            retiled(old(self).active_windows(), final(self).active_windows(), w as int, h as int, gap as int, master_w as int),
            forall|a: int| 0 <= a < WORKSPACE_COUNT && a != old(self).active_workspace ==> #[trigger] final(self).spaces()[a] == old(self).spaces()[a],
    {
        let a = self.active_workspace;
        let ghost before = self.spaces();
        self.workspaces[a].retile(w, h, gap, master_w);
        let ghost after = self.spaces();
        assert forall|b: int, i: int| 0 <= b < after.len() && 0 <= i < after[b].len() implies #[trigger] after[b][i].handle == before[b][i].handle by {
            if b != a {
                assert(after[b] == before[b]);
            }
        }
        assert(handles_distinct(after));
    }
}


/// The handles of the windows that are not minimized, in stacking order.
pub open spec fn visible_handles(ws: Seq<Window>) -> Seq<u64>
    decreases ws.len(),
{
    if ws.len() == 0 {
        Seq::<u64>::empty()
    } else {
        let init = visible_handles(ws.drop_last());
        if ws.last().minimized {
            init
        } else {
            init.push(ws.last().handle)
        }
    }
}

/// The first visible window is the first window of the stacking order that
/// is not minimized: when a workspace switch focuses `Some(h)`, `h` is the
/// handle of a window that is not minimized and every window before it is;
/// it focuses nothing exactly when every window is minimized.
pub proof fn lemma_first_visible(ws: Seq<Window>)
    ensures
        first_visible(ws) matches Some(h) ==> exists|p: int| 0 <= p < ws.len() && ws[p].handle == h && !ws[p].minimized
            && forall|j: int| 0 <= j < p ==> #[trigger] ws[j].minimized,
        first_visible(ws) is None <==> forall|j: int| 0 <= j < ws.len() ==> #[trigger] ws[j].minimized,
    decreases ws.len(),
{
    if ws.len() > 0 {
        let init = ws.drop_last();
        lemma_first_visible(init);
        assert forall|j: int| 0 <= j < init.len() implies init[j] == #[trigger] ws[j] by {}
        if first_visible(init) is Some {
            assert(visible_handles(ws)[0] == visible_handles(init)[0]);
            let h = visible_handles(init)[0];
            let p = choose|p: int| 0 <= p < init.len() && init[p].handle == h && !init[p].minimized
                && forall|j: int| 0 <= j < p ==> #[trigger] init[j].minimized;
            assert(ws[p] == init[p]);
            assert(forall|j: int| 0 <= j < p ==> #[trigger] ws[j].minimized);
            assert(!ws[p].minimized);
        } else {
            assert(visible_handles(init).len() == 0);
            if !ws.last().minimized {
                assert(visible_handles(ws) =~= seq![ws.last().handle]);
                let p = ws.len() - 1;
                assert(ws[p] == ws.last());
                assert(forall|j: int| 0 <= j < p ==> #[trigger] ws[j].minimized);
            } else {
                assert(forall|j: int| 0 <= j < ws.len() ==> #[trigger] ws[j].minimized) by {
                    assert forall|j: int| 0 <= j < ws.len() implies #[trigger] ws[j].minimized by {
                        if j < ws.len() - 1 {
                            assert(init[j] == ws[j]);
                        }
                    }
                }
            }
        }
    }
}

/// Without a rule, or with a rule that leaves `float` unset, a new window
/// floats exactly when it has a parent; a rule's `float` overrides that.
pub proof fn lemma_placement_floats_dialogs(
    rule: Option<WindowRule>,
    has_parent: bool,
    dw: int,
    dh: int,
    gap: int,
    out_w: int,
    out_h: int,
)
    ensures
        (rule is None || rule->0.float is None) ==> placement(rule, has_parent, dw, dh, gap, out_w, out_h).floating
            == has_parent,
        forall|f: bool| rule is Some && rule->0.float == Some(f) ==> placement(rule, has_parent, dw, dh, gap, out_w, out_h).floating
            == f,
{
}

/// Every visible handle is the handle of a window that is not minimized, and
/// the visible handles are as many as such windows, in the same order.
pub proof fn lemma_visible_handles(ws: Seq<Window>)
    ensures
        forall|t: int| 0 <= t < visible_handles(ws).len() ==> exists|i: int| 0 <= i < ws.len()
            && !ws[i].minimized && #[trigger] visible_handles(ws)[t] == ws[i].handle,
        forall|i: int| 0 <= i < ws.len() && !ws[i].minimized ==> #[trigger] visible_handles(ws).contains(ws[i].handle),
        visible_handles(ws).len() <= ws.len(),
    decreases ws.len(),
{
    if ws.len() > 0 {
        let init = ws.drop_last();
        lemma_visible_handles(init);
        assert forall|t: int| 0 <= t < visible_handles(ws).len() implies exists|i: int| 0 <= i < ws.len()
            && !ws[i].minimized && #[trigger] visible_handles(ws)[t] == ws[i].handle by {
            if t < visible_handles(init).len() {
                let i = choose|i: int| 0 <= i < init.len() && !init[i].minimized && visible_handles(init)[t] == init[i].handle;
                assert(ws[i] == init[i]);
            } else {
                assert(ws[ws.len() - 1] == ws.last());
            }
        }
        assert forall|i: int| 0 <= i < ws.len() && !ws[i].minimized implies #[trigger] visible_handles(ws).contains(ws[i].handle) by {
            if i < ws.len() - 1 {
                assert(init[i] == ws[i]);
                assert(visible_handles(init).contains(ws[i].handle));
                let t = choose|t: int| 0 <= t < visible_handles(init).len() && visible_handles(init)[t] == ws[i].handle;
                assert(visible_handles(ws)[t] == ws[i].handle);
            } else {
                assert(visible_handles(ws).last() == ws[i].handle);
            }
        }
    }
}

/// The visible handles of a workspace with distinct handles are distinct.
pub proof fn lemma_visible_distinct(ws: Seq<Window>)
    requires
        forall|i: int, j: int| 0 <= i < ws.len() && 0 <= j < ws.len() && i != j ==> #[trigger] ws[i].handle != #[trigger] ws[j].handle,
    ensures
        visible_handles(ws).no_duplicates(),
    decreases ws.len(),
{
    if ws.len() > 0 {
        let init = ws.drop_last();
        lemma_visible_distinct(init);
        lemma_visible_handles(init);
        if !ws.last().minimized {
            assert forall|t: int| 0 <= t < visible_handles(init).len() implies visible_handles(init)[t] != ws.last().handle by {
                let i = choose|i: int| 0 <= i < init.len() && !init[i].minimized && visible_handles(init)[t] == init[i].handle;
                assert(ws[i] == init[i]);
                assert(ws[i].handle != ws[ws.len() - 1].handle);
            }
        }
    }
}

/// The handles of the visible windows.
pub fn visible_handles_of(windows: &Vec<Window>) -> (r: Vec<u64>)
    ensures
        r@ == visible_handles(windows@),
{
    let mut r: Vec<u64> = Vec::new();
    let n = windows.len();
    assert(windows@.take(0) =~= Seq::<Window>::empty());
    for i in 0..n
        invariant
            n == windows@.len(),
            r@ == visible_handles(windows@.take(i as int)),
    {
        assert(windows@.take(i + 1).drop_last() =~= windows@.take(i as int));
        if !windows[i].minimized {
            r.push(windows[i].handle);
        }
    }
    assert(windows@.take(n as int) =~= windows@);
    r
}

/// Position of the first `x` in `s` (the length of `s` when absent).
pub open spec fn first_index(s: Seq<u64>, x: u64) -> int
    decreases s.len(),
{
    if s.len() == 0 {
        0
    } else if s[0] == x {
        0
    } else {
        1 + first_index(s.drop_first(), x)
    }
}

/// `first_index` is the position of the first occurrence.
pub proof fn lemma_first_index(s: Seq<u64>, x: u64)
    ensures
        0 <= first_index(s, x) <= s.len(),
        first_index(s, x) < s.len() ==> s[first_index(s, x)] == x,
        forall|t: int| 0 <= t < first_index(s, x) ==> s[t] != x,
        s.contains(x) <==> first_index(s, x) < s.len(),
    decreases s.len(),
{
    if s.len() > 0 && s[0] != x {
        lemma_first_index(s.drop_first(), x);
        assert forall|t: int| 0 <= t < first_index(s, x) implies s[t] != x by {
            if t > 0 {
                assert(s[t] == s.drop_first()[t - 1]);
            }
        }
        if s.contains(x) {
            let k = choose|k: int| 0 <= k < s.len() && s[k] == x;
            assert(s.drop_first()[k - 1] == x);
        }
        if first_index(s, x) < s.len() {
            assert(s.drop_first()[first_index(s, x) - 1] == x);
        }
    }
}

/// In a sequence without duplicates, the first index of `s[t]` is `t`.
pub proof fn lemma_first_index_distinct(s: Seq<u64>, t: int)
    requires
        s.no_duplicates(),
        0 <= t < s.len(),
    ensures
        first_index(s, s[t]) == t,
{
    lemma_first_index(s, s[t]);
    let p = first_index(s, s[t]);
    assert(s.contains(s[t]));
    if p != t {
        assert(s[p] == s[t]);
    }
}

/// Finds the first position of `x` (the length when absent).
pub fn index_of(s: &Vec<u64>, x: u64) -> (r: usize)
    ensures
        r == first_index(s@, x),
{
    proof {
        lemma_first_index(s@, x);
    }
    let n = s.len();
    for i in 0..n
        invariant
            n == s@.len(),
            0 <= first_index(s@, x) <= s@.len(),
            first_index(s@, x) < s@.len() ==> s@[first_index(s@, x)] == x,
            forall|t: int| 0 <= t < first_index(s@, x) ==> s@[t] != x,
            i <= first_index(s@, x),
    {
        if s[i] == x {
            return i;
        }
    }
    n
}

/// Position of the focused window among the visible ones; 0 when the focus
/// is not one of them.
pub open spec fn focus_position(vis: Seq<u64>, focus: u64) -> int {
    let p = first_index(vis, focus);
    if p < vis.len() {
        p
    } else {
        0
    }
}

/// The window that "focus next" selects: the one after the focused window
/// among the visible ones, cyclically; the first when nothing is focused.
pub open spec fn next_focus(vis: Seq<u64>, focus: Option<u64>) -> Option<u64> {
    if vis.len() == 0 {
        None
    } else {
        let i = match focus {
            Some(f) => (focus_position(vis, f) + 1) % (vis.len() as int),
            None => 0,
        };
        Some(vis[i])
    }
}

/// The window that "focus previous" selects: the one before the focused
/// window among the visible ones, cyclically; the last when nothing is
/// focused.
pub open spec fn prev_focus(vis: Seq<u64>, focus: Option<u64>) -> Option<u64> {
    if vis.len() == 0 {
        None
    } else {
        let i = match focus {
            Some(f) => {
                let p = focus_position(vis, f);
                if p == 0 {
                    vis.len() - 1
                } else {
                    p - 1
                }
            },
            None => vis.len() - 1,
        };
        Some(vis[i])
    }
}

/// "Focus previous" undoes "focus next", and the other way round, for a
/// focused window that is visible (handles are distinct).
pub proof fn lemma_focus_cycle(vis: Seq<u64>, f: u64)
    requires
        vis.no_duplicates(),
        vis.contains(f),
    ensures
        prev_focus(vis, next_focus(vis, Some(f))) == Some(f),
        next_focus(vis, prev_focus(vis, Some(f))) == Some(f),
{
    lemma_first_index(vis, f);
    let n = vis.len() as int;
    let p = first_index(vis, f);
    let q = (p + 1) % n;
    if p + 1 < n {
        assert(q == p + 1) by (nonlinear_arith)
            requires
                q == (p + 1) % n,
                0 <= p + 1 < n,
        ;
    } else {
        assert(q == 0) by (nonlinear_arith)
            requires
                q == (p + 1) % n,
                p + 1 == n,
                n > 0,
        ;
    }
    lemma_first_index_distinct(vis, q);
    let r = if p == 0 { n - 1 } else { p - 1 };
    lemma_first_index_distinct(vis, r);
    let r1 = (r + 1) % n;
    if p == 0 {
        assert(r1 == 0) by (nonlinear_arith)
            requires
                r1 == (r + 1) % n,
                r + 1 == n,
                n > 0,
        ;
    } else {
        assert(r1 == p) by (nonlinear_arith)
            requires
                r1 == (r + 1) % n,
                r + 1 == p,
                0 <= p < n,
        ;
    }
}

/// The focus after pressing "focus next" `k` times.
pub open spec fn focus_next_times(vis: Seq<u64>, focus: Option<u64>, k: nat) -> Option<u64>
    decreases k,
{
    if k == 0 {
        focus
    } else {
        next_focus(vis, focus_next_times(vis, focus, (k - 1) as nat))
    }
}

/// "Focus next" walks the visible windows in order, cyclically: from the
/// `i`-th, `k` presses reach the `(i + k) % n`-th, so `n` presses come back
/// to the start and every visible window is reached on the way.
pub proof fn lemma_focus_next_visits_all(vis: Seq<u64>, i: int, k: nat)
    requires
        vis.no_duplicates(),
        0 <= i < vis.len(),
    ensures
        focus_next_times(vis, Some(vis[i]), k) == Some(vis[(i + k) % (vis.len() as int)]),
        k == vis.len() ==> focus_next_times(vis, Some(vis[i]), k) == Some(vis[i]),
    decreases k,
{
    let n = vis.len() as int;
    if k == 0 {
        assert(i % n == i) by (nonlinear_arith)
            requires
                0 <= i < n,
        ;
    } else {
        lemma_focus_next_visits_all(vis, i, (k - 1) as nat);
        let j = (i + k - 1) % n;
        vstd::arithmetic::div_mod::lemma_mod_bound(i + k - 1, n);
        lemma_first_index_distinct(vis, j);
        vstd::arithmetic::div_mod::lemma_add_mod_noop_right(1, i + k - 1, n);
        assert((j + 1) % n == (i + k) % n);
    }
    if k == vis.len() {
        assert((i + n) % n == i) by (nonlinear_arith)
            requires
                0 <= i < n,
        ;
    }
}

/// The visible windows of a well-formed desktop's active workspace have
/// distinct handles.
pub proof fn lemma_active_visible_distinct(d: &Desktop)
    requires
        d.wf(),
    ensures
        visible_handles(d.active_windows()).no_duplicates(),
{
    let ws = d.active_windows();
    let a = d.active_workspace as int;
    assert(d.spaces()[a] == ws);
    assert forall|i: int, j: int| 0 <= i < ws.len() && 0 <= j < ws.len() && i != j implies #[trigger] ws[i].handle != #[trigger] ws[j].handle by {
        assert(d.spaces()[a][i].handle != d.spaces()[a][j].handle);
    }
    lemma_visible_distinct(ws);
}

/// On a well-formed desktop, "focus previous" undoes "focus next" and the
/// other way round, for any visible window of the active workspace that has
/// the focus.
pub proof fn lemma_focus_round_trip(d: &Desktop, f: u64)
    requires
        d.wf(),
        visible_handles(d.active_windows()).contains(f),
    ensures
        prev_focus(visible_handles(d.active_windows()), next_focus(visible_handles(d.active_windows()), Some(f)))
            == Some(f),
        next_focus(visible_handles(d.active_windows()), prev_focus(visible_handles(d.active_windows()), Some(f)))
            == Some(f),
{
    lemma_active_visible_distinct(d);
    lemma_focus_cycle(visible_handles(d.active_windows()), f);
}

impl Desktop {
    /// The window that "focus next" selects in the active workspace.
    pub fn focus_next_target(&self, focus: Option<u64>) -> (r: Option<u64>)
        requires
            self.wf(),
        ensures
            r == next_focus(visible_handles(self.active_windows()), focus),
    {
        let vis = visible_handles_of(self.windows());
        if vis.len() == 0 {
            return None;
        }
        let i = match focus {
            Some(f) => {
                let p = index_of(&vis, f);
                let p = if p < vis.len() { p } else { 0 };
                (p + 1) % vis.len()
            },
            None => 0,
        };
        Some(vis[i])
    }

    /// The window that "focus previous" selects in the active workspace.
    pub fn focus_prev_target(&self, focus: Option<u64>) -> (r: Option<u64>)
        requires
            self.wf(),
        ensures
            r == prev_focus(visible_handles(self.active_windows()), focus),
    {
        let vis = visible_handles_of(self.windows());
        if vis.len() == 0 {
            return None;
        }
        let i = match focus {
            Some(f) => {
                let p = index_of(&vis, f);
                let p = if p < vis.len() { p } else { 0 };
                if p == 0 {
                    vis.len() - 1
                } else {
                    p - 1
                }
            },
            None => vis.len() - 1,
        };
        Some(vis[i])
    }
}


/// Position of the first window with handle `h` (the length when absent).
pub open spec fn window_index(ws: Seq<Window>, h: u64) -> int
    decreases ws.len(),
{
    if ws.len() == 0 {
        0
    } else if ws[0].handle == h {
        0
    } else {
        1 + window_index(ws.drop_first(), h)
    }
}

/// `window_index` is the position of the first window with the handle.
pub proof fn lemma_window_index(ws: Seq<Window>, h: u64)
    ensures
        0 <= window_index(ws, h) <= ws.len(),
        window_index(ws, h) < ws.len() ==> ws[window_index(ws, h)].handle == h,
        forall|t: int| 0 <= t < window_index(ws, h) ==> #[trigger] ws[t].handle != h,
    decreases ws.len(),
{
    if ws.len() > 0 && ws[0].handle != h {
        lemma_window_index(ws.drop_first(), h);
        assert forall|t: int| 0 <= t < window_index(ws, h) implies #[trigger] ws[t].handle != h by {
            if t > 0 {
                assert(ws[t] == ws.drop_first()[t - 1]);
            }
        }
        if window_index(ws, h) < ws.len() {
            assert(ws.drop_first()[window_index(ws, h) - 1] == ws[window_index(ws, h)]);
        }
    }
}

/// Finds the first window with handle `h` (the length when absent).
pub fn position_of(windows: &Vec<Window>, h: u64) -> (r: usize)
    ensures
        r == window_index(windows@, h),
{
    proof {
        lemma_window_index(windows@, h);
    }
    let n = windows.len();
    for i in 0..n
        invariant
            n == windows@.len(),
            0 <= window_index(windows@, h) <= windows@.len(),
            window_index(windows@, h) < windows@.len() ==> windows@[window_index(windows@, h)].handle == h,
            forall|t: int| 0 <= t < window_index(windows@, h) ==> #[trigger] windows@[t].handle != h,
            i <= window_index(windows@, h),
    {
        if windows[i].handle == h {
            return i;
        }
    }
    n
}

/// The windows with window `pos` moved to the top of the stack (the end).
pub open spec fn raised(ws: Seq<Window>, pos: int) -> Seq<Window> {
    if 0 <= pos < ws.len() - 1 {
        ws.remove(pos).push(ws[pos])
    } else {
        ws
    }
}

/// Replacing one workspace's windows by windows with distinct handles that
/// all come from it keeps the desktop's handles distinct.
pub proof fn lemma_replace_space(spaces: Seq<Seq<Window>>, a: int, new: Seq<Window>)
    requires
        handles_distinct(spaces),
        0 <= a < spaces.len(),
        forall|i: int, j: int| 0 <= i < new.len() && 0 <= j < new.len() && i != j ==> #[trigger] new[i].handle != #[trigger] new[j].handle,
        forall|i: int| 0 <= i < new.len() ==> exists|k: int| 0 <= k < spaces[a].len() && #[trigger] new[i].handle == spaces[a][k].handle,
    ensures
        handles_distinct(spaces.update(a, new)),
{
    let s2 = spaces.update(a, new);
    assert forall|b: int, i: int, c: int, j: int|
        0 <= b < s2.len() && 0 <= c < s2.len() && 0 <= i < s2[b].len() && 0 <= j < s2[c].len() && (b != c || i != j)
        implies #[trigger] s2[b][i].handle != #[trigger] s2[c][j].handle by {
        if b == a && c == a {
        } else if b == a {
            let k = choose|k: int| 0 <= k < spaces[a].len() && new[i].handle == spaces[a][k].handle;
            assert(spaces[a][k].handle != spaces[c][j].handle);
        } else if c == a {
            let k = choose|k: int| 0 <= k < spaces[a].len() && new[j].handle == spaces[a][k].handle;
            assert(spaces[b][i].handle != spaces[a][k].handle);
        } else {
            assert(spaces[b][i].handle != spaces[c][j].handle);
        }
    }
}

/// The handles of one workspace of a desktop with distinct handles are distinct.
pub proof fn lemma_space_distinct(spaces: Seq<Seq<Window>>, a: int)
    requires
        handles_distinct(spaces),
        0 <= a < spaces.len(),
    ensures
        forall|i: int, j: int| 0 <= i < spaces[a].len() && 0 <= j < spaces[a].len() && i != j ==> #[trigger] spaces[a][i].handle != #[trigger] spaces[a][j].handle,
{
    assert forall|i: int, j: int| 0 <= i < spaces[a].len() && 0 <= j < spaces[a].len() && i != j implies #[trigger] spaces[a][i].handle != #[trigger] spaces[a][j].handle by {
        assert(spaces[a][i].handle != spaces[a][j].handle);
    }
}

/// The windows after moving window `pos` of workspace `src` to the top of
/// workspace `dst`.
pub open spec fn moved_window(spaces: Seq<Seq<Window>>, src: int, pos: int, dst: int) -> Seq<Seq<Window>> {
    spaces.update(src, spaces[src].remove(pos)).update(dst, spaces[dst].push(spaces[src][pos]))
}

/// Where window `i` of workspace `b` was before a move of window `pos` of
/// `src` to the top (position `last`) of `dst`.
pub open spec fn moved_from(src: int, pos: int, dst: int, last: int, b: int, i: int) -> (int, int) {
    if b == src {
        if i < pos {
            (b, i)
        } else {
            (b, i + 1)
        }
    } else if b == dst && i == last {
        (src, pos)
    } else {
        (b, i)
    }
}

/// Moving a window to another workspace keeps the desktop's windows: a
/// handle is held after the move exactly when it was held before.
pub proof fn lemma_move_keeps_handles(spaces: Seq<Seq<Window>>, src: int, pos: int, dst: int, h: u64)
    requires
        0 <= src < spaces.len(),
        0 <= dst < spaces.len(),
        src != dst,
        0 <= pos < spaces[src].len(),
    ensures
        holds_handle(moved_window(spaces, src, pos, dst), h) <==> holds_handle(spaces, h),
{
    let m = moved_window(spaces, src, pos, dst);
    let last = m[dst].len() - 1;
    if holds_handle(m, h) {
        let (a, i) = choose|a: int, i: int| 0 <= a < m.len() && 0 <= i < m[a].len() && #[trigger] m[a][i].handle == h;
        let (b, j) = moved_from(src, pos, dst, last, a, i);
        assert(m[a][i] == spaces[b][j]);
        assert(holds_handle(spaces, h));
    }
    if holds_handle(spaces, h) {
        let (a, i) = choose|a: int, i: int| 0 <= a < spaces.len() && 0 <= i < spaces[a].len() && #[trigger] spaces[a][i].handle == h;
        if a == src {
            if i < pos {
                assert(m[src][i] == spaces[a][i]);
            } else if i == pos {
                assert(m[dst][last] == spaces[a][i]);
            } else {
                assert(m[src][i - 1] == spaces[a][i]);
            }
        } else {
            assert(m[a][i] == spaces[a][i]);
        }
        assert(holds_handle(m, h));
    }
}

/// Whether window `i` of the active workspace is activated once the keyboard
/// focus goes to a surface of window `owner` (`None`: to no window).
pub open spec fn activated_after(owner: Option<usize>, i: int) -> bool {
    match owner {
        Some(o) => o == i,
        None => false,
    }
}

/// Which windows of the active workspace change their activated state (and
/// so need a configure) when the keyboard focus goes to window `owner`:
/// `current[i]` is whether window `i` is activated now, and the result at
/// `i` whether that changes.
pub fn activation_changes(current: &Vec<bool>, owner: Option<usize>) -> (r: Vec<bool>)
    ensures
        r@.len() == current@.len(),
        forall|i: int| 0 <= i < current@.len() ==> #[trigger] r@[i] == (current@[i] != activated_after(owner, i)),
{
    let mut out: Vec<bool> = Vec::new();
    let n = current.len();
    for i in 0..n
        invariant
            n == current@.len(),
            out@.len() == i,
            forall|k: int| 0 <= k < i ==> #[trigger] out@[k] == (current@[k] != activated_after(owner, k)),
    {
        let now = match owner {
            Some(o) => o == i,
            None => false,
        };
        out.push(current[i] != now);
    }
    out
}

impl Desktop {
    /// Moves the window that holds the focus target (`target`, by handle) to
    /// the top of the active workspace's stack.
    pub fn raise_window(&mut self, target: u64)
        requires
            old(self).wf(),
        ensures
            final(self).wf(),
            final(self).active_workspace == old(self).active_workspace,
            final(self).spaces() == old(self).spaces().update(
                old(self).active_workspace as int,
                raised(old(self).active_windows(), window_index(old(self).active_windows(), target)),
            ),
    {
        let a = self.active_workspace;
        let pos = position_of(&self.workspaces[a].windows, target);
        let len = self.workspaces[a].windows.len();
        let ghost spaces = self.spaces();
        let ghost ws = spaces[a as int];
        assert(ws == self.active_windows());
        if pos < len && pos + 1 < len {
            let win = self.workspaces[a].windows.remove(pos);
            self.workspaces[a].windows.push(win);
            proof {
                let new = ws.remove(pos as int).push(ws[pos as int]);
                assert(self.spaces() =~= spaces.update(a as int, new));
                lemma_space_distinct(spaces, a as int);
                assert forall|i: int| 0 <= i < new.len() implies exists|k: int| 0 <= k < ws.len() && #[trigger] new[i].handle == ws[k].handle by {
                    if i < pos {
                        assert(new[i] == ws[i]);
                    } else if i < new.len() - 1 {
                        assert(new[i] == ws[i + 1]);
                    } else {
                        assert(new[i] == ws[pos as int]);
                    }
                }
                assert forall|i: int, j: int| 0 <= i < new.len() && 0 <= j < new.len() && i != j implies #[trigger] new[i].handle != #[trigger] new[j].handle by {
                    let oi = if i < pos { i } else if i < new.len() - 1 { i + 1 } else { pos as int };
                    let oj = if j < pos { j } else if j < new.len() - 1 { j + 1 } else { pos as int };
                    assert(new[i] == ws[oi] && new[j] == ws[oj]);
                }
                lemma_replace_space(spaces, a as int, new);
            }
        } else {
            assert(self.spaces() =~= spaces.update(a as int, ws));
        }
    }

    /// Moves window `pos` of workspace `src` to the top of workspace `dst`.
    pub fn move_window(&mut self, src: usize, pos: usize, dst: usize)
        requires
            old(self).wf(),
            src < WORKSPACE_COUNT,
            dst < WORKSPACE_COUNT,
            src != dst,
            pos < old(self).spaces()[src as int].len(),
        ensures
            final(self).wf(),
            final(self).active_workspace == old(self).active_workspace,
            final(self).spaces() == moved_window(old(self).spaces(), src as int, pos as int, dst as int),
    {
        let ghost spaces = self.spaces();
        let win = self.workspaces[src].windows.remove(pos);
        self.workspaces[dst].windows.push(win);
        proof {
            let s2 = moved_window(spaces, src as int, pos as int, dst as int);
            assert(self.spaces() =~= s2);
            let w = spaces[src as int][pos as int];
            let last = s2[dst as int].len() - 1;
            assert forall|b: int, i: int| 0 <= b < s2.len() && 0 <= i < s2[b].len() implies
                0 <= (#[trigger] moved_from(src as int, pos as int, dst as int, last, b, i)).0 < spaces.len()
                && 0 <= moved_from(src as int, pos as int, dst as int, last, b, i).1 < spaces[moved_from(src as int, pos as int, dst as int, last, b, i).0].len()
                && s2[b][i] == spaces[moved_from(src as int, pos as int, dst as int, last, b, i).0][moved_from(src as int, pos as int, dst as int, last, b, i).1] by {
            }
            assert forall|b: int, i: int, c: int, j: int|
                0 <= b < s2.len() && 0 <= c < s2.len() && 0 <= i < s2[b].len() && 0 <= j < s2[c].len() && (b != c || i != j)
                implies #[trigger] s2[b][i].handle != #[trigger] s2[c][j].handle by {
                let (ob, oi) = moved_from(src as int, pos as int, dst as int, last, b, i);
                let (oc, oj) = moved_from(src as int, pos as int, dst as int, last, c, j);
                assert(s2[b][i] == spaces[ob][oi]);
                assert(s2[c][j] == spaces[oc][oj]);
                assert(ob != oc || oi != oj);
                assert(spaces[ob][oi].handle != spaces[oc][oj].handle);
            }
        }
    }
}


/// Whether a binding fires for the pressed modifiers and key: the modifiers
/// are equal and the key's unmodified or modified keysym is the binding's.
pub open spec fn bind_fires(
    b: ParsedKeybind,
    logo: bool,
    shift: bool,
    ctrl: bool,
    alt: bool,
    raw_syms: Seq<u32>,
    mod_sym: u32,
) -> bool {
    b.logo == logo && b.shift == shift && b.ctrl == ctrl && b.alt == alt && (raw_syms.contains(b.sym)
        || mod_sym == b.sym)
}

/// The first binding that fires for a key press, if any.
pub fn find_keybind(
    binds: &Vec<ParsedKeybind>,
    logo: bool,
    shift: bool,
    ctrl: bool,
    alt: bool,
    raw_syms: &Vec<u32>,
    mod_sym: u32,
) -> (r: Option<usize>)
    ensures
        match r {
            Some(i) => i < binds@.len() && bind_fires(binds@[i as int], logo, shift, ctrl, alt, raw_syms@, mod_sym)
                && forall|j: int| 0 <= j < i ==> !bind_fires(#[trigger] binds@[j], logo, shift, ctrl, alt, raw_syms@, mod_sym),
            None => forall|j: int| 0 <= j < binds@.len() ==> !bind_fires(#[trigger] binds@[j], logo, shift, ctrl, alt, raw_syms@, mod_sym),
        },
{
    let n = binds.len();
    for i in 0..n
        invariant
            n == binds@.len(),
            forall|j: int| 0 <= j < i ==> !bind_fires(#[trigger] binds@[j], logo, shift, ctrl, alt, raw_syms@, mod_sym),
    {
        let b = &binds[i];
        if b.logo == logo && b.shift == shift && b.ctrl == ctrl && b.alt == alt {
            let mut found = mod_sym == b.sym;
            let m = raw_syms.len();
            for k in 0..m
                invariant
                    m == raw_syms@.len(),
                    found == (mod_sym == b.sym || exists|t: int| 0 <= t < k && raw_syms@[t] == b.sym),
            {
                if raw_syms[k] == b.sym {
                    found = true;
                }
            }
            proof {
                if raw_syms@.contains(b.sym) {
                    let t = choose|t: int| 0 <= t < m && raw_syms@[t] == b.sym;
                }
            }
            if found {
                return Some(i);
            }
        }
    }
    None
}

/// What the compositor does after a key binding's action was applied.
#[derive(Debug, Clone, PartialEq, Eq)]
pub enum KeyOutcome {
    /// Nothing to do.
    Ignored,
    /// The active workspace changed: retile, then focus this window (none
    /// when the workspace has no visible window).
    WorkspaceSwitched(Option<u64>),
    /// Focus this window.
    Focus(u64),
    /// The focused window moved to another workspace: retile and clear the
    /// keyboard focus.
    WindowMoved,
    /// Ask this window to close.
    Close(u64),
    /// Stop the compositor.
    Exit,
    /// Run this command with `sh -c`.
    Spawn(String),
}

/// The mathematical value of a `KeyOutcome`.
pub enum OutcomeSpec {
    Ignored,
    WorkspaceSwitched(Option<u64>),
    Focus(u64),
    WindowMoved,
    Close(u64),
    Exit,
    Spawn(Seq<char>),
}

impl View for KeyOutcome {
    type V = OutcomeSpec;

    open spec fn view(&self) -> OutcomeSpec {
        match self {
            KeyOutcome::Ignored => OutcomeSpec::Ignored,
            KeyOutcome::WorkspaceSwitched(f) => OutcomeSpec::WorkspaceSwitched(*f),
            KeyOutcome::Focus(h) => OutcomeSpec::Focus(*h),
            KeyOutcome::WindowMoved => OutcomeSpec::WindowMoved,
            KeyOutcome::Close(h) => OutcomeSpec::Close(*h),
            KeyOutcome::Exit => OutcomeSpec::Exit,
            KeyOutcome::Spawn(c) => OutcomeSpec::Spawn(c@),
        }
    }
}

/// The first visible window of a workspace, if any.
pub open spec fn first_visible(ws: Seq<Window>) -> Option<u64> {
    if visible_handles(ws).len() > 0 {
        Some(visible_handles(ws)[0])
    } else {
        None
    }
}

/// A focus request for an optional window.
pub open spec fn focus_outcome(h: Option<u64>) -> OutcomeSpec {
    match h {
        Some(x) => OutcomeSpec::Focus(x),
        None => OutcomeSpec::Ignored,
    }
}

/// The focused window's position in the active workspace, when the focus is
/// one of its windows.
pub open spec fn focused_index(ws: Seq<Window>, focus: Option<u64>) -> Option<int> {
    match focus {
        Some(f) => if window_index(ws, f) < ws.len() {
            Some(window_index(ws, f))
        } else {
            None
        },
        None => None,
    }
}

impl Desktop {
    /// Applies a key binding's action, given the window that has the
    /// keyboard focus (by handle; `None` when nothing is focused).
    pub fn apply_key_action(&mut self, action: &KeyAction, focus: Option<u64>) -> (r: KeyOutcome)
        requires
            old(self).wf(),
        ensures
            final(self).wf(),
            match action@ {
                ActionSpec::Workspace(i) => if i < WORKSPACE_COUNT && i != old(self).active_workspace {
                    &&& final(self).active_workspace == i
                    &&& final(self).spaces() == old(self).spaces()
                    &&& r@ == OutcomeSpec::WorkspaceSwitched(first_visible(old(self).spaces()[i as int]))
                } else {
                    &&& final(self).active_workspace == old(self).active_workspace
                    &&& final(self).spaces() == old(self).spaces()
                    &&& r@ == OutcomeSpec::Ignored
                },
                ActionSpec::MoveToWorkspace(d) => match focused_index(old(self).active_windows(), focus) {
                    Some(p) if d < WORKSPACE_COUNT && d != old(self).active_workspace => {
                        &&& final(self).active_workspace == old(self).active_workspace
                        &&& final(self).spaces() == moved_window(old(self).spaces(), old(self).active_workspace as int, p, d as int)
                        &&& r@ == OutcomeSpec::WindowMoved
                    },
                    _ => {
                        &&& final(self).active_workspace == old(self).active_workspace
                        &&& final(self).spaces() == old(self).spaces()
                        &&& r@ == OutcomeSpec::Ignored
                    },
                },
                ActionSpec::FocusNext => {
                    &&& final(self).active_workspace == old(self).active_workspace
                    &&& final(self).spaces() == old(self).spaces()
                    &&& r@ == focus_outcome(next_focus(visible_handles(old(self).active_windows()), focus))
                },
                ActionSpec::FocusPrev => {
                    &&& final(self).active_workspace == old(self).active_workspace
                    &&& final(self).spaces() == old(self).spaces()
                    &&& r@ == focus_outcome(prev_focus(visible_handles(old(self).active_windows()), focus))
                },
                ActionSpec::Close => {
                    &&& final(self).active_workspace == old(self).active_workspace
                    &&& final(self).spaces() == old(self).spaces()
                    &&& r@ == match focused_index(old(self).active_windows(), focus) {
                        Some(p) => OutcomeSpec::Close(old(self).active_windows()[p].handle),
                        None => OutcomeSpec::Ignored,
                    }
                },
                ActionSpec::Exit => {
                    &&& final(self).active_workspace == old(self).active_workspace
                    &&& final(self).spaces() == old(self).spaces()
                    &&& r@ == OutcomeSpec::Exit
                },
                ActionSpec::Exec(c) => {
                    &&& final(self).active_workspace == old(self).active_workspace
                    &&& final(self).spaces() == old(self).spaces()
                    &&& r@ == OutcomeSpec::Spawn(c)
                },
            },
    {
        match action {
            KeyAction::Workspace(idx) => {
                let idx = *idx;
                if idx < WORKSPACE_COUNT && idx != self.active_workspace {
                    self.switch_workspace(idx);
                    let vis = visible_handles_of(self.windows());
                    if vis.len() > 0 {
                        KeyOutcome::WorkspaceSwitched(Some(vis[0]))
                    } else {
                        KeyOutcome::WorkspaceSwitched(None)
                    }
                } else {
                    KeyOutcome::Ignored
                }
            },
            KeyAction::FocusNext => match self.focus_next_target(focus) {
                Some(h) => KeyOutcome::Focus(h),
                None => KeyOutcome::Ignored,
            },
            KeyAction::FocusPrev => match self.focus_prev_target(focus) {
                Some(h) => KeyOutcome::Focus(h),
                None => KeyOutcome::Ignored,
            },
            KeyAction::MoveToWorkspace(dest) => {
                let dest = *dest;
                if dest < WORKSPACE_COUNT && dest != self.active_workspace {
                    match focus {
                        Some(f) => {
                            let a = self.active_workspace;
                            let p = position_of(&self.workspaces[a].windows, f);
                            if p < self.workspaces[a].windows.len() {
                                self.move_window(a, p, dest);
                                KeyOutcome::WindowMoved
                            } else {
                                KeyOutcome::Ignored
                            }
                        },
                        None => KeyOutcome::Ignored,
                    }
                } else {
                    KeyOutcome::Ignored
                }
            },
            KeyAction::Close => match focus {
                Some(f) => {
                    let a = self.active_workspace;
                    let p = position_of(&self.workspaces[a].windows, f);
                    if p < self.workspaces[a].windows.len() {
                        KeyOutcome::Close(self.workspaces[a].windows[p].handle)
                    } else {
                        KeyOutcome::Ignored
                    }
                },
                None => KeyOutcome::Ignored,
            },
            KeyAction::Exit => KeyOutcome::Exit,
            KeyAction::Exec(cmd) => KeyOutcome::Spawn(cmd.clone()),
        }
    }
}


/// Index of the first rule that applies to a window (the number of rules
/// when none does).
pub open spec fn first_rule(rules: Seq<WindowRule>, app_id: Option<Seq<char>>, title: Option<Seq<char>>) -> int
    decreases rules.len(),
{
    if rules.len() == 0 {
        0
    } else if rules[0].applies_to(app_id, title) {
        0
    } else {
        1 + first_rule(rules.drop_first(), app_id, title)
    }
}

proof fn lemma_first_rule(rules: Seq<WindowRule>, app_id: Option<Seq<char>>, title: Option<Seq<char>>)
    ensures
        0 <= first_rule(rules, app_id, title) <= rules.len(),
        first_rule(rules, app_id, title) < rules.len() ==> rules[first_rule(rules, app_id, title)].applies_to(app_id, title),
        forall|t: int| 0 <= t < first_rule(rules, app_id, title) ==> !(#[trigger] rules[t]).applies_to(app_id, title),
    decreases rules.len(),
{
    if rules.len() > 0 && !rules[0].applies_to(app_id, title) {
        lemma_first_rule(rules.drop_first(), app_id, title);
        assert forall|t: int| 0 <= t < first_rule(rules, app_id, title) implies !(#[trigger] rules[t]).applies_to(app_id, title) by {
            if t > 0 {
                assert(rules[t] == rules.drop_first()[t - 1]);
            }
        }
        if first_rule(rules, app_id, title) < rules.len() {
            assert(rules.drop_first()[first_rule(rules, app_id, title) - 1] == rules[first_rule(rules, app_id, title)]);
        }
    }
}

/// Finds the first rule that applies to a window with this app_id and title
/// (the number of rules when none does).
pub fn first_matching_rule(rules: &Vec<WindowRule>, app_id: Option<&str>, title: Option<&str>) -> (r: usize)
    ensures
        r == first_rule(rules@, opt_str_view(app_id), opt_str_view(title)),
{
    proof {
        lemma_first_rule(rules@, opt_str_view(app_id), opt_str_view(title));
    }
    let n = rules.len();
    for i in 0..n
        invariant
            n == rules@.len(),
            0 <= first_rule(rules@, opt_str_view(app_id), opt_str_view(title)) <= n,
            first_rule(rules@, opt_str_view(app_id), opt_str_view(title)) < n ==> rules@[first_rule(rules@, opt_str_view(app_id), opt_str_view(title))].applies_to(opt_str_view(app_id), opt_str_view(title)),
            forall|t: int| 0 <= t < first_rule(rules@, opt_str_view(app_id), opt_str_view(title)) ==> !(#[trigger] rules@[t]).applies_to(opt_str_view(app_id), opt_str_view(title)),
            i <= first_rule(rules@, opt_str_view(app_id), opt_str_view(title)),
    {
        if rules[i].matches(app_id, title) {
            return i;
        }
    }
    n
}

/// The coordinate that centers `size` on `out`, but at least `gap`.
pub open spec fn centered(out: int, size: int, gap: int) -> int {
    let c = div_trunc(out - size, 2);
    if c >= gap {
        c
    } else {
        gap
    }
}

/// Where a new window goes, as a matched rule decides.
pub struct Placement {
    /// Floating or tiled.
    pub floating: bool,
    /// Target workspace, when the rule names a valid one.
    pub workspace: Option<usize>,
    /// Rectangle of a floating window that a rule placed.
    pub custom: Option<Rect>,
}

/// The rule's size, or the default dialog size.
pub open spec fn rule_size(rule: WindowRule, dw: int, dh: int) -> (int, int) {
    match rule.size {
        Some(s) => (s[0] as int, s[1] as int),
        None => (dw, dh),
    }
}

/// The placement of a new window with the given parent status, under the
/// rule that applies to it (if any).
pub open spec fn placement(
    rule: Option<WindowRule>,
    has_parent: bool,
    dw: int,
    dh: int,
    gap: int,
    out_w: int,
    out_h: int,
) -> Placement {
    match rule {
        None => Placement { floating: has_parent, workspace: None, custom: None },
        Some(r) => {
            let floating = match r.float {
                Some(f) => f,
                None => has_parent,
            };
            let workspace = match r.workspace {
                Some(n) => if 1 <= n <= WORKSPACE_COUNT {
                    Some((n - 1) as usize)
                } else {
                    None
                },
                None => None,
            };
            let custom = if floating {
                let (w, h) = rule_size(r, dw, dh);
                let center = match r.center {
                    Some(c) => c,
                    None => true,
                };
                let x = if center { centered(out_w, w, gap) } else { 100 };
                let y = if center { centered(out_h, h, gap) } else { 100 };
                Some(Rect { x: x as i32, y: y as i32, w: w as i32, h: h as i32 })
            } else {
                None
            };
            Placement { floating, workspace, custom }
        },
    }
}

/// Centering a rule's floating window stays within `i32` (the subtraction
/// would overflow otherwise).
pub open spec fn placement_fits(rule: Option<WindowRule>, has_parent: bool, dw: int, dh: int, out_w: int, out_h: int) -> bool {
    match rule {
        None => true,
        Some(r) => {
            let floating = match r.float {
                Some(f) => f,
                None => has_parent,
            };
            let center = match r.center {
                Some(c) => c,
                None => true,
            };
            let (w, h) = rule_size(r, dw, dh);
            floating && center ==> i32::MIN <= out_w - w <= i32::MAX && i32::MIN <= out_h - h <= i32::MAX
        },
    }
}

/// The rectangle a new window starts with.
pub open spec fn initial_rect(p: Placement) -> Rect {
    match p.custom {
        Some(r) => r,
        None => if p.floating {
            Rect { x: 100, y: 100, w: 0, h: 0 }
        } else {
            Rect { x: 0, y: 0, w: 0, h: 0 }
        },
    }
}

fn center_coord(out: i32, size: i32, gap: i32) -> (r: i32)
    requires
        i32::MIN <= out - size <= i32::MAX,
    ensures
        r == centered(out as int, size as int, gap as int),
{
    let c = (out - size) / 2;
    if c >= gap {
        c
    } else {
        gap
    }
}

/// Computes the placement of a new window under a rule.
pub fn place_window(
    rule: Option<&WindowRule>,
    has_parent: bool,
    floating_cfg: &FloatingConfig,
    gap: i32,
    out_w: i32,
    out_h: i32,
) -> (r: Placement)
    requires
        placement_fits(
            match rule { Some(x) => Some(*x), None => None },
            has_parent,
            floating_cfg.dialog_width as int,
            floating_cfg.dialog_height as int,
            out_w as int,
            out_h as int,
        ),
    ensures
        r == placement(
            match rule { Some(x) => Some(*x), None => None },
            has_parent,
            floating_cfg.dialog_width as int,
            floating_cfg.dialog_height as int,
            gap as int,
            out_w as int,
            out_h as int,
        ),
{
    match rule {
        None => Placement { floating: has_parent, workspace: None, custom: None },
        Some(r) => {
            let floating = match r.float {
                Some(f) => f,
                None => has_parent,
            };
            let workspace = match r.workspace {
                Some(n) => if 1 <= n && n <= WORKSPACE_COUNT {
                    Some(n - 1)
                } else {
                    None
                },
                None => None,
            };
            let custom = if floating {
                let w = match r.size {
                    Some(s) => s[0],
                    None => floating_cfg.dialog_width,
                };
                let h = match r.size {
                    Some(s) => s[1],
                    None => floating_cfg.dialog_height,
                };
                let center = match r.center {
                    Some(c) => c,
                    None => true,
                };
                let x = if center { center_coord(out_w, w, gap) } else { 100 };
                let y = if center { center_coord(out_h, h, gap) } else { 100 };
                Some(Rect { x, y, w, h })
            } else {
                None
            };
            Placement { floating, workspace, custom }
        },
    }
}


/// The optional string as an optional string slice.
pub fn opt_as_str(o: &Option<String>) -> (r: Option<&str>)
    ensures
        opt_str_view(r) == opt_string_view(*o),
{
    match o {
        Some(s) => Some(s.as_str()),
        None => None,
    }
}

/// Whether centering under a rule stays within `i32`.
pub fn placement_fits_check(
    rule: Option<&WindowRule>,
    has_parent: bool,
    floating_cfg: &FloatingConfig,
    out_w: i32,
    out_h: i32,
) -> (r: bool)
    ensures
        r == placement_fits(
            match rule { Some(x) => Some(*x), None => None },
            has_parent,
            floating_cfg.dialog_width as int,
            floating_cfg.dialog_height as int,
            out_w as int,
            out_h as int,
        ),
{
    match rule {
        None => true,
        Some(r) => {
            let floating = match r.float {
                Some(f) => f,
                None => has_parent,
            };
            let center = match r.center {
                Some(c) => c,
                None => true,
            };
            let w = match r.size {
                Some(s) => s[0],
                None => floating_cfg.dialog_width,
            };
            let h = match r.size {
                Some(s) => s[1],
                None => floating_cfg.dialog_height,
            };
            let dx = out_w as i64 - w as i64;
            let dy = out_h as i64 - h as i64;
            !(floating && center) || ((i32::MIN as i64) <= dx && dx <= (i32::MAX as i64) && (i32::MIN as i64) <= dy && dy <= (i32::MAX as i64))
        },
    }
}

/// What the compositor does after a new window was added.
#[derive(Debug, Clone, Copy, PartialEq, Eq)]
pub struct NewWindow {
    /// The workspace the window went to.
    pub workspace: usize,
    pub floating: bool,
    /// Size to configure on a floating window that a rule placed.
    pub size: Option<(i32, i32)>,
    /// Retile the active workspace (a tiled window on it).
    pub retile: bool,
    /// Give the window the keyboard focus (it is on the active workspace).
    pub focus: bool,
}

/// The rule that applies to a window, if any.
pub open spec fn applying_rule(rules: Seq<WindowRule>, app_id: Option<Seq<char>>, title: Option<Seq<char>>) -> Option<WindowRule> {
    let k = first_rule(rules, app_id, title);
    if k < rules.len() {
        Some(rules[k])
    } else {
        None
    }
}

/// The window that a new toplevel becomes.
pub open spec fn new_window_of(
    handle: u64,
    id: u32,
    app_id: Option<String>,
    title: Option<String>,
    has_parent: bool,
    p: Placement,
    tile_order: int,
) -> Window {
    Window {
        handle,
        id,
        rect: initial_rect(p),
        minimized: false,
        floating: p.floating,
        tile_order: tile_order as usize,
        rules_evaluated: false,
        has_parent,
        app_id,
        title,
    }
}

/// The windows after adding a new toplevel, and what the compositor does.
pub open spec fn new_window_result(
    spaces: Seq<Seq<Window>>,
    active: usize,
    handle: u64,
    id: u32,
    app_id: Option<String>,
    title: Option<String>,
    has_parent: bool,
    rules: Seq<WindowRule>,
    dw: int,
    dh: int,
    gap: int,
    out_w: int,
    out_h: int,
) -> (Seq<Seq<Window>>, NewWindow) {
    let p = placement(
        applying_rule(rules, opt_string_view(app_id), opt_string_view(title)),
        has_parent,
        dw,
        dh,
        gap,
        out_w,
        out_h,
    );
    let t = match p.workspace {
        Some(w) => w,
        None => active,
    };
    (
        spaces.update(
            t as int,
            spaces[t as int].push(new_window_of(handle, id, app_id, title, has_parent, p, spaces[t as int].len() as int)),
        ),
        NewWindow {
            workspace: t,
            floating: p.floating,
            size: match p.custom {
                Some(c) => Some((c.w, c.h)),
                None => None,
            },
            retile: !p.floating && t == active,
            focus: t == active,
        },
    )
}

impl Desktop {
    /// Adds a new toplevel window, placed by the first rule that applies to
    /// it: on the rule's workspace or the active one, floating if it has a
    /// parent or the rule says so, at the rule's size and centered.
    pub fn place_new_window(
        &mut self,
        handle: u64,
        id: u32,
        app_id: Option<String>,
        title: Option<String>,
        has_parent: bool,
        rules: &Vec<WindowRule>,
        floating_cfg: &FloatingConfig,
        gap: i32,
        out_w: i32,
        out_h: i32,
    ) -> (r: NewWindow)
        requires
            old(self).wf(),
            !holds_handle(old(self).spaces(), handle),
            placement_fits(
                applying_rule(rules@, opt_string_view(app_id), opt_string_view(title)),
                has_parent,
                floating_cfg.dialog_width as int,
                floating_cfg.dialog_height as int,
                out_w as int,
                out_h as int,
            ),
        ensures
            final(self).wf(),
            final(self).active_workspace == old(self).active_workspace,
            ({
                let (spaces, out) = new_window_result(
                    old(self).spaces(), old(self).active_workspace, handle, id, app_id, title, has_parent,
                    rules@, floating_cfg.dialog_width as int, floating_cfg.dialog_height as int,
                    gap as int, out_w as int, out_h as int,
                );
                final(self).spaces() == spaces && r == out
            }),
    {
        let k = first_matching_rule(rules, opt_as_str(&app_id), opt_as_str(&title));
        let rule = if k < rules.len() {
            Some(&rules[k])
        } else {
            None
        };
        let p = place_window(rule, has_parent, floating_cfg, gap, out_w, out_h);
        let t = match p.workspace {
            Some(w) => w,
            None => self.active_workspace,
        };
        let rect = match p.custom {
            Some(r) => r,
            None => if p.floating {
                Rect { x: 100, y: 100, w: 0, h: 0 }
            } else {
                Rect { x: 0, y: 0, w: 0, h: 0 }
            },
        };
        let tile_order = self.workspaces[t].windows.len();
        let ghost spaces = self.spaces();
        let win = Window {
            handle,
            id,
            rect,
            minimized: false,
            floating: p.floating,
            tile_order,
            rules_evaluated: false,
            has_parent,
            app_id,
            title,
        };
        self.workspaces[t].windows.push(win);
        proof {
            let s2 = spaces.update(t as int, spaces[t as int].push(win));
            assert(self.spaces() =~= s2);
            assert forall|b: int, i: int, c: int, j: int|
                0 <= b < s2.len() && 0 <= c < s2.len() && 0 <= i < s2[b].len() && 0 <= j < s2[c].len() && (b != c || i != j)
                implies #[trigger] s2[b][i].handle != #[trigger] s2[c][j].handle by {
                let new_bi = b == t && i == spaces[t as int].len();
                let new_cj = c == t && j == spaces[t as int].len();
                if new_bi {
                    assert(s2[c][j] == spaces[c][j]);
                    if spaces[c][j].handle == handle {
                        assert(holds_handle(spaces, handle));
                    }
                } else if new_cj {
                    assert(s2[b][i] == spaces[b][i]);
                    if spaces[b][i].handle == handle {
                        assert(holds_handle(spaces, handle));
                    }
                } else {
                    assert(s2[b][i] == spaces[b][i]);
                    assert(s2[c][j] == spaces[c][j]);
                }
            }
        }
        NewWindow {
            workspace: t,
            floating: p.floating,
            size: match p.custom {
                Some(c) => Some((c.w, c.h)),
                None => None,
            },
            retile: !p.floating && t == self.active_workspace,
            focus: t == self.active_workspace,
        }
    }

    /// Adds a new toplevel window (see `place_new_window`), unless centering
    /// it under its rule would overflow `i32`, in which case nothing changes
    /// and the result is `None`.
    pub fn new_toplevel(
        &mut self,
        handle: u64,
        id: u32,
        app_id: Option<String>,
        title: Option<String>,
        has_parent: bool,
        rules: &Vec<WindowRule>,
        floating_cfg: &FloatingConfig,
        gap: i32,
        out_w: i32,
        out_h: i32,
    ) -> (r: Option<NewWindow>)
        requires
            old(self).wf(),
            !holds_handle(old(self).spaces(), handle),
        ensures
            final(self).wf(),
            r is None <==> !placement_fits(
                applying_rule(rules@, opt_string_view(app_id), opt_string_view(title)),
                has_parent,
                floating_cfg.dialog_width as int,
                floating_cfg.dialog_height as int,
                out_w as int,
                out_h as int,
            ),
            r is None ==> *final(self) == *old(self),
            r is Some ==> final(self).active_workspace == old(self).active_workspace,
            r is Some ==> ({
                let (spaces, out) = new_window_result(
                    old(self).spaces(), old(self).active_workspace, handle, id, app_id, title, has_parent,
                    rules@, floating_cfg.dialog_width as int, floating_cfg.dialog_height as int,
                    gap as int, out_w as int, out_h as int,
                );
                final(self).spaces() == spaces && r == Some(out)
            }),
    {
        let k = first_matching_rule(rules, opt_as_str(&app_id), opt_as_str(&title));
        let rule = if k < rules.len() {
            Some(&rules[k])
        } else {
            None
        };
        if !placement_fits_check(rule, has_parent, floating_cfg, out_w, out_h) {
            return None;
        }
        Some(self.place_new_window(handle, id, app_id, title, has_parent, rules, floating_cfg, gap, out_w, out_h))
    }
}


/// Replacing one window by one with the same handle keeps the desktop's
/// handles distinct.
pub proof fn lemma_same_handle_update(spaces: Seq<Seq<Window>>, a: int, p: int, w: Window)
    requires
        handles_distinct(spaces),
        0 <= a < spaces.len(),
        0 <= p < spaces[a].len(),
        w.handle == spaces[a][p].handle,
    ensures
        handles_distinct(spaces.update(a, spaces[a].update(p, w))),
{
    let s2 = spaces.update(a, spaces[a].update(p, w));
    assert forall|b: int, i: int| 0 <= b < s2.len() && 0 <= i < s2[b].len() implies #[trigger] s2[b][i].handle == spaces[b][i].handle by {
    }
    assert forall|b: int, i: int, c: int, j: int|
        0 <= b < s2.len() && 0 <= c < s2.len() && 0 <= i < s2[b].len() && 0 <= j < s2[c].len() && (b != c || i != j)
        implies #[trigger] s2[b][i].handle != #[trigger] s2[c][j].handle by {
        assert(s2[b][i].handle == spaces[b][i].handle);
        assert(s2[c][j].handle == spaces[c][j].handle);
    }
}

/// The window after its first commit re-evaluated the rules: marked as
/// evaluated, and floated and centered when a rule says `float = true` and it
/// was tiled.
pub open spec fn reevaluated(w: Window, rule: Option<WindowRule>, dw: int, dh: int, gap: int, out_w: int, out_h: int) -> Window {
    let marked = Window { rules_evaluated: true, ..w };
    match rule {
        Some(r) => if !w.floating && r.float == Some(true) {
            let (rw, rh) = rule_size(r, dw, dh);
            Window {
                floating: true,
                rect: Rect {
                    x: centered(out_w, rw, gap) as i32,
                    y: centered(out_h, rh, gap) as i32,
                    w: rw as i32,
                    h: rh as i32,
                },
                ..marked
            }
        } else {
            marked
        },
        None => marked,
    }
}

/// The rules are re-evaluated for window `w`: it has no parent and was not
/// re-evaluated yet.
pub open spec fn needs_reevaluation(w: Window) -> bool {
    !w.has_parent && !w.rules_evaluated
}

/// Centering a window that a rule floats at commit stays within `i32`.
pub open spec fn reevaluation_fits(ws: Seq<Window>, h: u64, rule: Option<WindowRule>, dw: int, dh: int, out_w: int, out_h: int) -> bool {
    let p = window_index(ws, h);
    p < ws.len() && needs_reevaluation(ws[p]) && !ws[p].floating && rule is Some && rule->0.float == Some(true)
        ==> {
        let (rw, rh) = rule_size(rule->0, dw, dh);
        i32::MIN <= out_w - rw <= i32::MAX && i32::MIN <= out_h - rh <= i32::MAX
    }
}

/// Rules are re-evaluated at most once per window: the re-evaluated window
/// is marked and needs no further re-evaluation, and for a window of `ws`
/// that needs none (already evaluated, or with a parent) `reevaluate_rules`
/// may be called with any rule and output (its bound holds) and then changes
/// nothing (see its `ensures`).
pub proof fn lemma_rules_evaluated_once(
    ws: Seq<Window>,
    w: Window,
    h: u64,
    rule: Option<WindowRule>,
    dw: int,
    dh: int,
    gap: int,
    out_w: int,
    out_h: int,
)
    ensures
        !needs_reevaluation(reevaluated(w, rule, dw, dh, gap, out_w, out_h)),
        window_index(ws, h) < ws.len() && !needs_reevaluation(ws[window_index(ws, h)])
            ==> reevaluation_fits(ws, h, rule, dw, dh, out_w, out_h),
{
}

impl Desktop {
    /// Whether `reevaluate_rules` can be called with these values: centering
    /// the window that a rule would float stays within `i32`.
    pub fn reevaluation_fits_check(
        &self,
        handle: u64,
        rule: Option<&WindowRule>,
        floating_cfg: &FloatingConfig,
        out_w: i32,
        out_h: i32,
    ) -> (r: bool)
        requires
            self.wf(),
        ensures
            r == reevaluation_fits(
                self.active_windows(),
                handle,
                match rule { Some(x) => Some(*x), None => None },
                floating_cfg.dialog_width as int,
                floating_cfg.dialog_height as int,
                out_w as int,
                out_h as int,
            ),
    {
        let ws = self.windows();
        let p = position_of(ws, handle);
        if p >= ws.len() {
            return true;
        }
        let w = &ws[p];
        if w.has_parent || w.rules_evaluated || w.floating {
            return true;
        }
        match rule {
            Some(r) => {
                if r.float != Some(true) {
                    return true;
                }
                let rw = match r.size {
                    Some(s) => s[0],
                    None => floating_cfg.dialog_width,
                };
                let rh = match r.size {
                    Some(s) => s[1],
                    None => floating_cfg.dialog_height,
                };
                let dx = out_w as i64 - rw as i64;
                let dy = out_h as i64 - rh as i64;
                (i32::MIN as i64) <= dx && dx <= (i32::MAX as i64) && (i32::MIN as i64) <= dy && dy <= (i32::MAX as i64)
            },
            None => true,
        }
    }

    /// On a window's commit, re-evaluates the rule that now applies to it
    /// (`rule`, found from its current app_id and title): the first time,
    /// a tiled window that a rule floats becomes floating, centered at the
    /// rule's size. Returns its new rectangle when it was floated.
    pub fn reevaluate_rules(
        &mut self,
        handle: u64,
        rule: Option<&WindowRule>,
        floating_cfg: &FloatingConfig,
        gap: i32,
        out_w: i32,
        out_h: i32,
    ) -> (r: Option<Rect>)
        requires
            old(self).wf(),
            reevaluation_fits(
                old(self).active_windows(),
                handle,
                match rule { Some(x) => Some(*x), None => None },
                floating_cfg.dialog_width as int,
                floating_cfg.dialog_height as int,
                out_w as int,
                out_h as int,
            ),
        ensures
            final(self).wf(),
            final(self).active_workspace == old(self).active_workspace,
            ({
                let ws = old(self).active_windows();
                let p = window_index(ws, handle);
                let rl = match rule { Some(x) => Some(*x), None => None };
                if p < ws.len() && needs_reevaluation(ws[p]) {
                    let w2 = reevaluated(ws[p], rl, floating_cfg.dialog_width as int, floating_cfg.dialog_height as int, gap as int, out_w as int, out_h as int);
                    &&& final(self).spaces() == old(self).spaces().update(old(self).active_workspace as int, ws.update(p, w2))
                    &&& r == if w2.floating && !ws[p].floating { Some(w2.rect) } else { None }
                } else {
                    &&& final(self).spaces() == old(self).spaces()
                    &&& r is None
                }
            }),
    {
        let a = self.active_workspace;
        let p = position_of(&self.workspaces[a].windows, handle);
        if p >= self.workspaces[a].windows.len() {
            return None;
        }
        let ghost spaces = self.spaces();
        let w = &self.workspaces[a].windows[p];
        if w.has_parent || w.rules_evaluated {
            return None;
        }
        let mut w2 = w.duplicate();
        w2.rules_evaluated = true;
        let mut result = None;
        match rule {
            Some(r) => {
                if !w2.floating && r.float == Some(true) {
                    let width = match r.size {
                        Some(s) => s[0],
                        None => floating_cfg.dialog_width,
                    };
                    let height = match r.size {
                        Some(s) => s[1],
                        None => floating_cfg.dialog_height,
                    };
                    let x = center_coord(out_w, width, gap);
                    let y = center_coord(out_h, height, gap);
                    w2.floating = true;
                    w2.rect = Rect { x, y, w: width, h: height };
                    result = Some(w2.rect);
                }
            },
            None => {},
        }
        let ghost w2v = w2;
        self.workspaces[a].windows.set(p, w2);
        proof {
            lemma_same_handle_update(spaces, a as int, p as int, w2v);
            assert(self.spaces() =~= spaces.update(a as int, spaces[a as int].update(p as int, w2v)));
        }
        result
    }

    /// When a window of the active workspace gets a parent, it floats as a
    /// dialog of the configured size centered on the output. Returns the
    /// size to configure when the window was found.
    pub fn parent_changed(&mut self, handle: u64, floating_cfg: &FloatingConfig, out_w: i32, out_h: i32) -> (r: Option<(i32, i32)>)
        requires
            old(self).wf(),
            i32::MIN <= out_w - floating_cfg.dialog_width <= i32::MAX,
            i32::MIN <= out_h - floating_cfg.dialog_height <= i32::MAX,
        ensures
            final(self).wf(),
            final(self).active_workspace == old(self).active_workspace,
            ({
                let ws = old(self).active_windows();
                let p = window_index(ws, handle);
                let dw = floating_cfg.dialog_width;
                let dh = floating_cfg.dialog_height;
                if p < ws.len() {
                    let rect = Rect {
                        x: div_trunc(out_w - dw, 2) as i32,
                        y: div_trunc(out_h - dh, 2) as i32,
                        w: dw,
                        h: dh,
                    };
                    &&& final(self).spaces() == old(self).spaces().update(
                        old(self).active_workspace as int,
                        ws.update(p, Window { floating: true, rect, ..ws[p] }),
                    )
                    &&& r == Some((dw, dh))
                } else {
                    &&& final(self).spaces() == old(self).spaces()
                    &&& r is None
                }
            }),
    {
        let dialog_w = floating_cfg.dialog_width;
        let dialog_h = floating_cfg.dialog_height;
        let x = (out_w - dialog_w) / 2;
        let y = (out_h - dialog_h) / 2;
        let a = self.active_workspace;
        let p = position_of(&self.workspaces[a].windows, handle);
        if p >= self.workspaces[a].windows.len() {
            return None;
        }
        let ghost spaces = self.spaces();
        let mut w2 = self.workspaces[a].windows[p].duplicate();
        w2.floating = true;
        w2.rect = Rect { x, y, w: dialog_w, h: dialog_h };
        let ghost w2v = w2;
        self.workspaces[a].windows.set(p, w2);
        proof {
            lemma_same_handle_update(spaces, a as int, p as int, w2v);
            assert(self.spaces() =~= spaces.update(a as int, spaces[a as int].update(p as int, w2v)));
        }
        Some((dialog_w, dialog_h))
    }

    /// Minimizes a window of the active workspace; `true` when it was found
    /// (the workspace is then retiled).
    pub fn minimize_window(&mut self, handle: u64) -> (r: bool)
        requires
            old(self).wf(),
        ensures
            final(self).wf(),
            final(self).active_workspace == old(self).active_workspace,
            ({
                let ws = old(self).active_windows();
                let p = window_index(ws, handle);
                if p < ws.len() {
                    &&& final(self).spaces() == old(self).spaces().update(
                        old(self).active_workspace as int,
                        ws.update(p, Window { minimized: true, ..ws[p] }),
                    )
                    &&& r
                } else {
                    &&& final(self).spaces() == old(self).spaces()
                    &&& !r
                }
            }),
    {
        let a = self.active_workspace;
        let p = position_of(&self.workspaces[a].windows, handle);
        if p >= self.workspaces[a].windows.len() {
            return false;
        }
        let ghost spaces = self.spaces();
        let mut w2 = self.workspaces[a].windows[p].duplicate();
        w2.minimized = true;
        let ghost w2v = w2;
        self.workspaces[a].windows.set(p, w2);
        proof {
            lemma_same_handle_update(spaces, a as int, p as int, w2v);
            assert(self.spaces() =~= spaces.update(a as int, spaces[a as int].update(p as int, w2v)));
        }
        true
    }

    /// Removes a destroyed window from the active workspace.
    pub fn remove_window(&mut self, handle: u64)
        requires
            old(self).wf(),
        ensures
            final(self).wf(),
            final(self).active_workspace == old(self).active_workspace,
            ({
                let ws = old(self).active_windows();
                let p = window_index(ws, handle);
                final(self).spaces() == if p < ws.len() {
                    old(self).spaces().update(old(self).active_workspace as int, ws.remove(p))
                } else {
                    old(self).spaces()
                }
            }),
            !visible_handles(final(self).active_windows()).contains(handle),
    {
        let a = self.active_workspace;
        let p = position_of(&self.workspaces[a].windows, handle);
        let ghost spaces = self.spaces();
        let ghost ws = spaces[a as int];
        proof {
            lemma_window_index(ws, handle);
            lemma_space_distinct(spaces, a as int);
        }
        if p < self.workspaces[a].windows.len() {
            self.workspaces[a].windows.remove(p);
            proof {
                let new = ws.remove(p as int);
                assert(self.spaces() =~= spaces.update(a as int, new));
                assert forall|i: int| 0 <= i < new.len() implies exists|k: int| 0 <= k < ws.len() && #[trigger] new[i].handle == ws[k].handle by {
                    if i < p {
                        assert(new[i] == ws[i]);
                    } else {
                        assert(new[i] == ws[i + 1]);
                    }
                }
                assert forall|i: int, j: int| 0 <= i < new.len() && 0 <= j < new.len() && i != j implies #[trigger] new[i].handle != #[trigger] new[j].handle by {
                    let oi = if i < p { i } else { i + 1 };
                    let oj = if j < p { j } else { j + 1 };
                    assert(new[i] == ws[oi] && new[j] == ws[oj]);
                }
                lemma_replace_space(spaces, a as int, new);
                lemma_visible_handles(new);
                if visible_handles(new).contains(handle) {
                    let t = choose|t: int| 0 <= t < visible_handles(new).len() && visible_handles(new)[t] == handle;
                    let i = choose|i: int| 0 <= i < new.len() && !new[i].minimized && visible_handles(new)[t] == new[i].handle;
                    let oi = if i < p { i } else { i + 1 };
                    assert(new[i] == ws[oi]);
                    assert(ws[oi].handle != ws[p as int].handle);
                }
            }
        } else {
            proof {
                lemma_visible_handles(ws);
                if visible_handles(ws).contains(handle) {
                    let t = choose|t: int| 0 <= t < visible_handles(ws).len() && visible_handles(ws)[t] == handle;
                    let i = choose|i: int| 0 <= i < ws.len() && !ws[i].minimized && visible_handles(ws)[t] == ws[i].handle;
                    assert(ws[i].handle == handle);
                }
            }
        }
    }
}

} // verus!
