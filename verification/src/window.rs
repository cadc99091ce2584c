//! Windows and workspaces as the window manager sees them.

use vstd::prelude::*;

verus! {

/// A rectangle in logical pixels: location and size.
#[derive(Debug, Clone, Copy, PartialEq, Eq, Structural)]
pub struct Rect {
    pub x: i32,
    pub y: i32,
    pub w: i32,
    pub h: i32,
}

/// A toplevel window and its place on screen.
#[derive(Debug, Clone)]
pub struct Window {
    /// Identity of the window, unique in the desktop.
    pub handle: u64,
    /// Protocol id of the window's surface (the id that IPC clients use).
    pub id: u32,
    pub rect: Rect,
    pub minimized: bool,
    pub floating: bool,
    /// Stable position in the tiling order.
    pub tile_order: usize,
    /// Whether the window rules were evaluated again after the first commit.
    pub rules_evaluated: bool,
    /// Whether the toplevel has a parent (a dialog or transient window).
    pub has_parent: bool,
    pub app_id: Option<String>,
    pub title: Option<String>,
}

/// A virtual desktop with its own windows, in stacking order (last on top).
#[derive(Debug)]
pub struct Workspace {
    pub windows: Vec<Window>,
}

impl View for Workspace {
    type V = Seq<Window>;

    open spec fn view(&self) -> Seq<Window> {
        self.windows@
    }
}

/// A window takes part in the tiling layout: it is neither minimized nor
/// floating and has no parent.
pub open spec fn is_tiled(w: Window) -> bool {
    !w.minimized && !w.floating && !w.has_parent
}

/// The window with another rectangle.
pub open spec fn with_rect(w: Window, r: Rect) -> Window {
    Window { rect: r, ..w }
}

/// A copy of an optional string.
pub fn clone_opt_string(o: &Option<String>) -> (r: Option<String>)
    ensures
        r == *o,
{
    match o {
        Some(s) => Some(s.clone()),
        None => None,
    }
}

impl Window {
    /// A copy of the window with another rectangle.
    pub fn moved_to(&self, rect: Rect) -> (r: Window)
        ensures
            r == with_rect(*self, rect),
    {
        Window {
            handle: self.handle,
            id: self.id,
            rect,
            minimized: self.minimized,
            floating: self.floating,
            tile_order: self.tile_order,
            rules_evaluated: self.rules_evaluated,
            has_parent: self.has_parent,
            app_id: clone_opt_string(&self.app_id),
            title: clone_opt_string(&self.title),
        }
    }

    /// A copy of the window.
    pub fn duplicate(&self) -> (r: Window)
        ensures
            r == *self,
    {
        self.moved_to(self.rect)
    }

    /// Whether the window takes part in the tiling layout.
    pub fn tiled(&self) -> (r: bool)
        ensures
            r == is_tiled(*self),
    {
        !self.minimized && !self.floating && !self.has_parent
    }
}

} // verus!
