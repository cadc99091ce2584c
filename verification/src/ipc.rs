//! The IPC protocol's commands and what each does to the desktop. Reading a
//! JSON line from the socket and writing the JSON reply is the caller's.

use vstd::prelude::*;
use crate::config::{opt_string_view};
use crate::desktop::{first_visible, holds_handle, lemma_move_keeps_handles, moved_window, visible_handles_of, workspaces_view, Desktop, WORKSPACE_COUNT};
use crate::text::{decimal, extend_str, lower_str, lowercase, occurs_in, push_decimal, string_from_chars, contains_chars};
use crate::window::{Window, Workspace};
use crate::config::opt_str_view;
use crate::desktop::opt_as_str;

verus! {

/// A command sent by an IPC client.
#[derive(Debug, Clone, PartialEq, Eq)]
pub enum IpcRequest {
    ListWindows,
    /// Focus the first window with this protocol id or whose app_id contains
    /// this text (case-insensitive).
    Focus { id: Option<u32>, app_id: Option<String> },
    Close { id: u32 },
    /// Switch to workspace `num` (1-based).
    Workspace { num: usize },
    /// Move window `id` to workspace `num` (1-based).
    MoveToWorkspace { id: u32, num: usize },
    ReloadConfig,
    GetConfig,
    Screenshot,
}

/// The mathematical value of an `IpcRequest`.
pub enum RequestSpec {
    ListWindows,
    Focus { id: Option<u32>, app_id: Option<Seq<char>> },
    Close { id: u32 },
    Workspace { num: usize },
    MoveToWorkspace { id: u32, num: usize },
    ReloadConfig,
    GetConfig,
    Screenshot,
}

impl View for IpcRequest {
    type V = RequestSpec;

    open spec fn view(&self) -> RequestSpec {
        match self {
            IpcRequest::ListWindows => RequestSpec::ListWindows,
            IpcRequest::Focus { id, app_id } => RequestSpec::Focus { id: *id, app_id: opt_string_view(*app_id) },
            IpcRequest::Close { id } => RequestSpec::Close { id: *id },
            IpcRequest::Workspace { num } => RequestSpec::Workspace { num: *num },
            IpcRequest::MoveToWorkspace { id, num } => RequestSpec::MoveToWorkspace { id: *id, num: *num },
            IpcRequest::ReloadConfig => RequestSpec::ReloadConfig,
            IpcRequest::GetConfig => RequestSpec::GetConfig,
            IpcRequest::Screenshot => RequestSpec::Screenshot,
        }
    }
}

/// One window as `ListWindows` reports it.
#[derive(Debug, Clone, PartialEq, Eq)]
pub struct IpcWindowInfo {
    pub id: u32,
    /// Workspace number, 1-based.
    pub workspace: usize,
    pub title: Option<String>,
    pub app_id: Option<String>,
    pub x: i32,
    pub y: i32,
    pub width: i32,
    pub height: i32,
    pub minimized: bool,
    pub floating: bool,
    pub focused: bool,
}

/// The mathematical value of an `IpcWindowInfo`.
pub struct InfoSpec {
    pub id: u32,
    pub workspace: usize,
    pub title: Option<Seq<char>>,
    pub app_id: Option<Seq<char>>,
    pub x: i32,
    pub y: i32,
    pub width: i32,
    pub height: i32,
    pub minimized: bool,
    pub floating: bool,
    pub focused: bool,
}

impl View for IpcWindowInfo {
    type V = InfoSpec;

    open spec fn view(&self) -> InfoSpec {
        InfoSpec {
            id: self.id,
            workspace: self.workspace,
            title: opt_string_view(self.title),
            app_id: opt_string_view(self.app_id),
            x: self.x,
            y: self.y,
            width: self.width,
            height: self.height,
            minimized: self.minimized,
            floating: self.floating,
            focused: self.focused,
        }
    }
}

/// The reply to an IPC command (`Done` is the plain success reply).
#[derive(Debug, Clone, PartialEq, Eq)]
pub enum IpcResponse {
    Done { ok: bool, message: Option<String> },
    Windows { ok: bool, windows: Vec<IpcWindowInfo> },
    Config { ok: bool, toml: String },
    Error { ok: bool, error: String },
}

/// The mathematical value of an `IpcResponse`.
pub enum ResponseSpec {
    Done { ok: bool, message: Option<Seq<char>> },
    Windows { ok: bool, windows: Seq<InfoSpec> },
    Config { ok: bool, toml: Seq<char> },
    Error { ok: bool, error: Seq<char> },
}

impl View for IpcResponse {
    type V = ResponseSpec;

    open spec fn view(&self) -> ResponseSpec {
        match self {
            IpcResponse::Done { ok, message } => ResponseSpec::Done { ok: *ok, message: opt_string_view(*message) },
            IpcResponse::Windows { ok, windows } => ResponseSpec::Windows {
                ok: *ok,
                windows: windows@.map_values(|w: IpcWindowInfo| w@),
            },
            IpcResponse::Config { ok, toml } => ResponseSpec::Config { ok: *ok, toml: toml@ },
            IpcResponse::Error { ok, error } => ResponseSpec::Error { ok: *ok, error: error@ },
        }
    }
}

/// What the compositor does after an IPC command was applied.
#[derive(Debug, Clone, PartialEq, Eq)]
pub enum IpcEffect {
    Nothing,
    /// The active workspace changed: retile, then focus this window (none
    /// when it has no visible window).
    WorkspaceSwitched(Option<u64>),
    /// Focus this window; `switched` when its workspace was made active
    /// first (retile then).
    Focus { handle: u64, switched: bool },
    /// Ask these windows to close.
    Close(Vec<u64>),
    /// Retile the active workspace and redraw.
    Retile,
    /// Load the configuration from disk and apply it.
    ReloadConfig,
    /// Fill the reply's `toml` with the configuration file's text (empty when
    /// it cannot be read).
    ReadConfig,
    /// Take a full-screen screenshot.
    Screenshot,
}

/// The mathematical value of an `IpcEffect`.
pub enum EffectSpec {
    Nothing,
    WorkspaceSwitched(Option<u64>),
    Focus { handle: u64, switched: bool },
    Close(Seq<u64>),
    Retile,
    ReloadConfig,
    ReadConfig,
    Screenshot,
}

impl View for IpcEffect {
    type V = EffectSpec;

    open spec fn view(&self) -> EffectSpec {
        match self {
            IpcEffect::Nothing => EffectSpec::Nothing,
            IpcEffect::WorkspaceSwitched(f) => EffectSpec::WorkspaceSwitched(*f),
            IpcEffect::Focus { handle, switched } => EffectSpec::Focus { handle: *handle, switched: *switched },
            IpcEffect::Close(v) => EffectSpec::Close(v@),
            IpcEffect::Retile => EffectSpec::Retile,
            IpcEffect::ReloadConfig => EffectSpec::ReloadConfig,
            IpcEffect::ReadConfig => EffectSpec::ReadConfig,
            IpcEffect::Screenshot => EffectSpec::Screenshot,
        }
    }
}

/// Position of the first window satisfying `pred` (the length when none).
pub open spec fn first_with(ws: Seq<Window>, pred: spec_fn(Window) -> bool) -> int
    decreases ws.len(),
{
    if ws.len() == 0 {
        0
    } else if pred(ws[0]) {
        0
    } else {
        1 + first_with(ws.drop_first(), pred)
    }
}

pub proof fn lemma_first_with(ws: Seq<Window>, pred: spec_fn(Window) -> bool)
    ensures
        0 <= first_with(ws, pred) <= ws.len(),
        first_with(ws, pred) < ws.len() ==> pred(ws[first_with(ws, pred)]),
        forall|t: int| 0 <= t < first_with(ws, pred) ==> !pred(#[trigger] ws[t]),
    decreases ws.len(),
{
    if ws.len() > 0 && !pred(ws[0]) {
        lemma_first_with(ws.drop_first(), pred);
        assert forall|t: int| 0 <= t < first_with(ws, pred) implies !pred(#[trigger] ws[t]) by {
            if t > 0 {
                assert(ws[t] == ws.drop_first()[t - 1]);
            }
        }
        if first_with(ws, pred) < ws.len() {
            assert(ws.drop_first()[first_with(ws, pred) - 1] == ws[first_with(ws, pred)]);
        }
    }
}

/// A position below the first one that satisfies `pred` and that does
/// satisfy it is the first.
pub proof fn lemma_first_with_at(ws: Seq<Window>, pred: spec_fn(Window) -> bool, i: int)
    requires
        0 <= i < ws.len(),
        pred(ws[i]),
        forall|t: int| 0 <= t < i ==> !pred(#[trigger] ws[t]),
    ensures
        first_with(ws, pred) == i,
{
    lemma_first_with(ws, pred);
}

/// The workspace and position of the first window (workspaces in order,
/// windows in stacking order) that satisfies `pred`.
pub open spec fn first_in_spaces(spaces: Seq<Seq<Window>>, pred: spec_fn(Window) -> bool) -> Option<(int, int)>
    decreases spaces.len(),
{
    if spaces.len() == 0 {
        None
    } else if first_with(spaces[0], pred) < spaces[0].len() {
        Some((0, first_with(spaces[0], pred)))
    } else {
        match first_in_spaces(spaces.drop_first(), pred) {
            Some((a, i)) => Some((a + 1, i)),
            None => None,
        }
    }
}

/// `first_in_spaces` after workspaces without a match.
pub proof fn lemma_first_in_spaces(spaces: Seq<Seq<Window>>, pred: spec_fn(Window) -> bool, a: int)
    requires
        0 <= a <= spaces.len(),
        forall|b: int| 0 <= b < a ==> first_with(#[trigger] spaces[b], pred) >= spaces[b].len(),
    ensures
        a < spaces.len() && first_with(spaces[a], pred) < spaces[a].len() ==> first_in_spaces(spaces, pred) == Some((a, first_with(spaces[a], pred))),
        a == spaces.len() ==> first_in_spaces(spaces, pred) is None,
    decreases a,
{
    if a > 0 {
        let rest = spaces.drop_first();
        assert forall|b: int| 0 <= b < a - 1 implies first_with(#[trigger] rest[b], pred) >= rest[b].len() by {
            assert(rest[b] == spaces[b + 1]);
        }
        lemma_first_in_spaces(rest, pred, a - 1);
        assert(first_with(spaces[0], pred) >= spaces[0].len());
        if a < spaces.len() {
            assert(rest[a - 1] == spaces[a]);
        }
    }
}

/// What `first_in_spaces` finds is a window of the desktop.
pub proof fn lemma_first_in_spaces_found(spaces: Seq<Seq<Window>>, pred: spec_fn(Window) -> bool)
    ensures
        first_in_spaces(spaces, pred) matches Some((a, i)) ==> 0 <= a < spaces.len() && 0 <= i < spaces[a].len(),
    decreases spaces.len(),
{
    if spaces.len() > 0 {
        lemma_first_with(spaces[0], pred);
        lemma_first_in_spaces_found(spaces.drop_first(), pred);
        if first_with(spaces[0], pred) >= spaces[0].len() {
            if let Some((a, i)) = first_in_spaces(spaces.drop_first(), pred) {
                assert(spaces.drop_first()[a] == spaces[a + 1]);
            }
        }
    }
}

/// A window has protocol id `id`.
pub open spec fn has_id(id: u32) -> spec_fn(Window) -> bool {
    |w: Window| w.id == id
}

/// A window is the target of an IPC focus command: its protocol id is `id`,
/// or its app_id contains `app_id` (case-insensitive).
pub open spec fn focus_target(id: Option<u32>, app_id: Option<Seq<char>>) -> spec_fn(Window) -> bool {
    |w: Window|
        (match id {
            Some(i) => w.id == i,
            None => false,
        }) || (match app_id {
            Some(t) => match w.app_id {
                Some(a) => occurs_in(lowercase(t), lowercase(a@)),
                None => false,
            },
            None => false,
        })
}

/// The windows that a close command reaches: in each workspace, the first
/// window with the id.
pub open spec fn close_targets(spaces: Seq<Seq<Window>>, id: u32) -> Seq<u64>
    decreases spaces.len(),
{
    if spaces.len() == 0 {
        Seq::<u64>::empty()
    } else {
        let init = close_targets(spaces.drop_last(), id);
        let ws = spaces.last();
        let i = first_with(ws, has_id(id));
        if i < ws.len() {
            init.push(ws[i].handle)
        } else {
            init
        }
    }
}

/// Some window of the desktop has protocol id `id` and handle `h`.
pub open spec fn window_with_id(spaces: Seq<Seq<Window>>, id: u32, h: u64) -> bool {
    exists|a: int, i: int| 0 <= a < spaces.len() && 0 <= i < spaces[a].len() && spaces[a][i].id == id
        && spaces[a][i].handle == h
}

/// A close command reaches only windows that have the id, and it reaches
/// none exactly when no window has the id.
pub proof fn lemma_close_reaches_windows_with_id(spaces: Seq<Seq<Window>>, id: u32)
    ensures
        forall|t: int| 0 <= t < close_targets(spaces, id).len() ==> window_with_id(
            spaces,
            id,
            #[trigger] close_targets(spaces, id)[t],
        ),
        close_targets(spaces, id).len() == 0 <==> forall|a: int, i: int| 0 <= a < spaces.len() && 0 <= i < spaces[a].len()
            ==> (#[trigger] spaces[a][i]).id != id,
    decreases spaces.len(),
{
    if spaces.len() > 0 {
        let init = spaces.drop_last();
        lemma_close_reaches_windows_with_id(init, id);
        let ws = spaces.last();
        let n = spaces.len() - 1;
        lemma_first_with(ws, has_id(id));
        let p = first_with(ws, has_id(id));
        let t0 = close_targets(init, id);
        let t1 = close_targets(spaces, id);
        assert forall|a: int| 0 <= a < init.len() implies init[a] == #[trigger] spaces[a] by {}
        assert(spaces[n] == ws);
        assert forall|t: int| 0 <= t < t1.len() implies window_with_id(spaces, id, #[trigger] t1[t]) by {
            if t < t0.len() {
                assert(t1[t] == t0[t]);
                assert(window_with_id(init, id, t0[t]));
                let (a, i) = choose|a: int, i: int| 0 <= a < init.len() && 0 <= i < init[a].len() && init[a][i].id == id
                    && init[a][i].handle == t0[t];
                assert(spaces[a][i] == init[a][i]);
            } else {
                assert(t1[t] == ws[p].handle);
                assert(has_id(id)(ws[p]));
                assert(spaces[n][p] == ws[p]);
            }
        }
        if p < ws.len() {
            assert(t1.len() > 0);
            assert(has_id(id)(ws[p]));
            assert(spaces[n][p].id == id);
        } else {
            assert(t1 == t0);
            assert forall|i: int| 0 <= i < ws.len() implies ws[i].id != id by {
                assert(!has_id(id)(ws[i]));
            }
            if t1.len() != 0 {
                let t = 0int;
                assert(window_with_id(init, id, t0[t]));
            }
            assert((forall|a: int, i: int| 0 <= a < spaces.len() && 0 <= i < spaces[a].len() ==> (#[trigger] spaces[a][i]).id != id)
                <==> (forall|a: int, i: int| 0 <= a < init.len() && 0 <= i < init[a].len() ==> (#[trigger] init[a][i]).id != id)) by {
                if forall|a: int, i: int| 0 <= a < init.len() && 0 <= i < init[a].len() ==> (#[trigger] init[a][i]).id != id {
                    assert forall|a: int, i: int| 0 <= a < spaces.len() && 0 <= i < spaces[a].len() implies (#[trigger] spaces[a][i]).id != id by {
                        if a < n {
                            assert(init[a][i] == spaces[a][i]);
                        } else {
                            assert(spaces[a][i] == ws[i]);
                        }
                    }
                }
                if forall|a: int, i: int| 0 <= a < spaces.len() && 0 <= i < spaces[a].len() ==> (#[trigger] spaces[a][i]).id != id {
                    assert forall|a: int, i: int| 0 <= a < init.len() && 0 <= i < init[a].len() implies (#[trigger] init[a][i]).id != id by {
                        assert(init[a][i] == spaces[a][i]);
                    }
                }
            }
        }
    }
}

/// How `ListWindows` reports a window of workspace `num` (1-based).
pub open spec fn info_of(w: Window, num: int, focus: Option<u64>) -> InfoSpec {
    InfoSpec {
        id: w.id,
        workspace: num as usize,
        title: opt_string_view(w.title),
        app_id: opt_string_view(w.app_id),
        x: w.rect.x,
        y: w.rect.y,
        width: w.rect.w,
        height: w.rect.h,
        minimized: w.minimized,
        floating: w.floating,
        focused: focus == Some(w.handle),
    }
}

/// The reports of all windows, workspace by workspace.
pub open spec fn all_infos(spaces: Seq<Seq<Window>>, focus: Option<u64>) -> Seq<InfoSpec>
    decreases spaces.len(),
{
    if spaces.len() == 0 {
        Seq::<InfoSpec>::empty()
    } else {
        all_infos(spaces.drop_last(), focus) + spaces.last().map_values(
            |w: Window| info_of(w, spaces.len() as int, focus),
        )
    }
}


/// An entry of `ListWindows` describes window `w` of workspace `num` (from 1)
/// as it is.
pub open spec fn describes(e: InfoSpec, w: Window, num: int, focus: Option<u64>) -> bool {
    &&& e.id == w.id
    &&& e.workspace == num
    &&& e.title == opt_string_view(w.title)
    &&& e.app_id == opt_string_view(w.app_id)
    &&& e.x == w.rect.x && e.y == w.rect.y && e.width == w.rect.w && e.height == w.rect.h
    &&& e.minimized == w.minimized
    &&& e.floating == w.floating
    &&& e.focused == (focus == Some(w.handle))
}

/// Entry `e` describes some window of the desktop.
pub open spec fn describes_a_window(spaces: Seq<Seq<Window>>, focus: Option<u64>, e: InfoSpec) -> bool {
    exists|a: int, i: int| 0 <= a < spaces.len() && 0 <= i < spaces[a].len() && describes(e, spaces[a][i], a + 1, focus)
}

/// Some entry of `infos` describes window `w` of workspace `num`.
pub open spec fn is_described(infos: Seq<InfoSpec>, w: Window, num: int, focus: Option<u64>) -> bool {
    exists|k: int| 0 <= k < infos.len() && describes(infos[k], w, num, focus)
}

/// `ListWindows` reports every window as it is: each entry describes a
/// window of the desktop, with its own flags, geometry and workspace
/// number, and each window is described by an entry.
pub proof fn lemma_list_reports_windows(spaces: Seq<Seq<Window>>, focus: Option<u64>)
    requires
        spaces.len() <= usize::MAX,
    ensures
        forall|k: int| 0 <= k < all_infos(spaces, focus).len() ==> describes_a_window(
            spaces,
            focus,
            #[trigger] all_infos(spaces, focus)[k],
        ),
        forall|a: int, i: int| 0 <= a < spaces.len() && 0 <= i < spaces[a].len() ==> is_described(
            all_infos(spaces, focus),
            #[trigger] spaces[a][i],
            a + 1,
            focus,
        ),
    decreases spaces.len(),
{
    if spaces.len() > 0 {
        let init = spaces.drop_last();
        lemma_list_reports_windows(init, focus);
        let pre = all_infos(init, focus);
        let n = spaces.len() as int;
        let last = spaces.last();
        let all = all_infos(spaces, focus);
        assert(all =~= pre + last.map_values(|w: Window| info_of(w, n, focus)));
        assert forall|k: int| 0 <= k < all.len() implies describes_a_window(spaces, focus, #[trigger] all[k]) by {
            if k < pre.len() {
                assert(all[k] == pre[k]);
                assert(describes_a_window(init, focus, pre[k]));
                let (a, i) = choose|a: int, i: int| 0 <= a < init.len() && 0 <= i < init[a].len()
                    && describes(pre[k], init[a][i], a + 1, focus);
                assert(init[a] == spaces[a]);
            } else {
                let i = k - pre.len();
                assert(all[k] == info_of(last[i], n, focus));
                assert(spaces[n - 1] == last);
                assert(describes(all[k], spaces[n - 1][i], n, focus));
            }
        }
        assert forall|a: int, i: int| 0 <= a < spaces.len() && 0 <= i < spaces[a].len() implies is_described(
            all,
            #[trigger] spaces[a][i],
            a + 1,
            focus,
        ) by {
            if a < n - 1 {
                assert(init[a] == spaces[a]);
                assert(init[a][i] == spaces[a][i]);
                assert(is_described(pre, init[a][i], a + 1, focus));
                let k = choose|k: int| 0 <= k < pre.len() && describes(pre[k], init[a][i], a + 1, focus);
                assert(all[k] == pre[k]);
            } else {
                let k = pre.len() + i;
                assert(spaces[a] == last);
                assert(all[k] == info_of(last[i], n, focus));
                assert(describes(all[k], spaces[a][i], a + 1, focus));
            }
        }
    }
}

/// `prefix` followed by the decimal number.
pub open spec fn with_number(prefix: Seq<char>, n: nat) -> Seq<char> {
    prefix + decimal(n)
}

/// "ventana {id} movida al workspace {num}".
pub open spec fn moved_message(id: nat, num: nat) -> Seq<char> {
    "ventana "@ + decimal(id) + " movida al workspace "@ + decimal(num)
}

/// "ventana {id} no encontrada".
pub open spec fn not_found_message(id: nat) -> Seq<char> {
    "ventana "@ + decimal(id) + " no encontrada"@
}

/// What an IPC command does: the new windows and active workspace, the
/// reply, and what the compositor does next.
pub open spec fn ipc_result(spaces: Seq<Seq<Window>>, active: usize, req: RequestSpec, focus: Option<u64>) -> (
    Seq<Seq<Window>>,
    usize,
    ResponseSpec,
    EffectSpec,
) {
    match req {
        RequestSpec::ListWindows => (
            spaces,
            active,
            ResponseSpec::Windows { ok: true, windows: all_infos(spaces, focus) },
            EffectSpec::Nothing,
        ),
        RequestSpec::Focus { id, app_id } => match first_in_spaces(spaces, focus_target(id, app_id)) {
            Some((a, i)) => (
                spaces,
                a as usize,
                ResponseSpec::Done { ok: true, message: Some("foco asignado a ventana"@) },
                EffectSpec::Focus { handle: spaces[a][i].handle, switched: a != active },
            ),
            None => (
                spaces,
                active,
                ResponseSpec::Error { ok: false, error: "ventana no encontrada"@ },
                EffectSpec::Nothing,
            ),
        },
        RequestSpec::Close { id } => {
            let t = close_targets(spaces, id);
            if t.len() > 0 {
                (
                    spaces,
                    active,
                    ResponseSpec::Done {
                        ok: true,
                        message: Some(with_number("senal de cierre enviada a ventana "@, id as nat)),
                    },
                    EffectSpec::Close(t),
                )
            } else {
                (
                    spaces,
                    active,
                    ResponseSpec::Error { ok: false, error: not_found_message(id as nat) },
                    EffectSpec::Nothing,
                )
            }
        },
        RequestSpec::Workspace { num } => if 1 <= num <= WORKSPACE_COUNT {
            (
                spaces,
                (num - 1) as usize,
                ResponseSpec::Done { ok: true, message: Some(with_number("cambiado al workspace "@, num as nat)) },
                EffectSpec::WorkspaceSwitched(first_visible(spaces[num - 1])),
            )
        } else {
            (
                spaces,
                active,
                ResponseSpec::Error { ok: false, error: with_number("numero de workspace invalido: "@, num as nat) },
                EffectSpec::Nothing,
            )
        },
        RequestSpec::MoveToWorkspace { id, num } => if num < 1 || num > WORKSPACE_COUNT {
            (
                spaces,
                active,
                ResponseSpec::Error { ok: false, error: with_number("workspace invalido: "@, num as nat) },
                EffectSpec::Nothing,
            )
        } else {
            match first_in_spaces(spaces, has_id(id)) {
                Some((src, pos)) => if src != num - 1 {
                    (
                        moved_window(spaces, src, pos, num - 1),
                        active,
                        ResponseSpec::Done { ok: true, message: Some(moved_message(id as nat, num as nat)) },
                        EffectSpec::Retile,
                    )
                } else {
                    (
                        spaces,
                        active,
                        ResponseSpec::Done { ok: true, message: Some(moved_message(id as nat, num as nat)) },
                        EffectSpec::Nothing,
                    )
                },
                None => (
                    spaces,
                    active,
                    ResponseSpec::Error { ok: false, error: not_found_message(id as nat) },
                    EffectSpec::Nothing,
                ),
            }
        },
        RequestSpec::ReloadConfig => (
            spaces,
            active,
            ResponseSpec::Done { ok: true, message: Some("configuracion recargada"@) },
            EffectSpec::ReloadConfig,
        ),
        RequestSpec::GetConfig => (
            spaces,
            active,
            ResponseSpec::Config { ok: true, toml: Seq::<char>::empty() },
            EffectSpec::ReadConfig,
        ),
        RequestSpec::Screenshot => (
            spaces,
            active,
            ResponseSpec::Done { ok: true, message: Some("captura de pantalla solicitada"@) },
            EffectSpec::Screenshot,
        ),
    }
}

/// A refused IPC command changes nothing: whenever the reply is an error,
/// the windows and the active workspace stay as they were and the
/// compositor has nothing to do.
pub proof fn lemma_refused_command_changes_nothing(
    spaces: Seq<Seq<Window>>,
    active: usize,
    req: RequestSpec,
    focus: Option<u64>,
)
    ensures
        ({
            let (new_spaces, new_active, resp, eff) = ipc_result(spaces, active, req, focus);
            resp is Error ==> new_spaces == spaces && new_active == active && eff is Nothing
        }),
{
}

/// Every IPC command keeps the desktop's windows: a handle is held after
/// the command exactly when it was held before.
pub proof fn lemma_command_keeps_windows(
    spaces: Seq<Seq<Window>>,
    active: usize,
    req: RequestSpec,
    focus: Option<u64>,
    h: u64,
)
    requires
        spaces.len() == WORKSPACE_COUNT,
    ensures
        holds_handle(ipc_result(spaces, active, req, focus).0, h) <==> holds_handle(spaces, h),
{
    if let RequestSpec::MoveToWorkspace { id, num } = req {
        if 1 <= num <= WORKSPACE_COUNT {
            lemma_first_in_spaces_found(spaces, has_id(id));
            if let Some((src, pos)) = first_in_spaces(spaces, has_id(id)) {
                if src != num - 1 {
                    lemma_move_keeps_handles(spaces, src, pos, num - 1, h);
                }
            }
        }
    }
}

/// Finds the first window with protocol id `id`.
fn find_by_id(spaces: &Vec<Workspace>, id: u32) -> (r: Option<(usize, usize)>)
    ensures
        match r {
            Some((a, i)) => first_in_spaces(workspaces_view(spaces@), has_id(id)) == Some((a as int, i as int))
                && a < spaces@.len() && i < spaces@[a as int].windows@.len(),
            None => first_in_spaces(workspaces_view(spaces@), has_id(id)) is None,
        },
{
    let ghost sv = workspaces_view(spaces@);
    let ghost pred = has_id(id);
    let n = spaces.len();
    for a in 0..n
        invariant
            n == spaces@.len(),
            sv == workspaces_view(spaces@),
            pred == has_id(id),
            forall|b: int| 0 <= b < a ==> first_with(#[trigger] sv[b], pred) >= sv[b].len(),
    {
        let ws = &spaces[a].windows;
        assert(sv[a as int] == ws@);
        let m = ws.len();
        for i in 0..m
            invariant
                m == ws@.len(),
                n == spaces@.len(),
                a < n,
                sv == workspaces_view(spaces@),
                spaces@[a as int].windows@ == ws@,
                sv[a as int] == ws@,
                pred == has_id(id),
                forall|b: int| 0 <= b < a ==> first_with(#[trigger] sv[b], pred) >= sv[b].len(),
                forall|t: int| 0 <= t < i ==> !pred(#[trigger] ws@[t]),
        {
            if ws[i].id == id {
                proof {
                    lemma_first_with_at(ws@, pred, i as int);
                    lemma_first_in_spaces(sv, pred, a as int);
                }
                return Some((a, i));
            }
        }
        proof {
            lemma_first_with(ws@, pred);
        }
    }
    proof {
        lemma_first_in_spaces(sv, pred, n as int);
    }
    None
}

/// Whether a window is the target of an IPC focus command, given the
/// command's app_id text already lowercased.
fn is_focus_target(w: &Window, id: Option<u32>, app_id: Option<&str>, lower_target: &Vec<char>) -> (r: bool)
    requires
        app_id is Some ==> lower_target@ == lowercase(app_id->0@),
    ensures
        r == (focus_target(id, opt_str_view(app_id)))(*w),
{
    let by_id = match id {
        Some(i) => w.id == i,
        None => false,
    };
    let by_app = match app_id {
        Some(_) => match &w.app_id {
            Some(a) => {
                let la = lower_str(a.as_str());
                contains_chars(la.as_slice(), lower_target.as_slice())
            },
            None => false,
        },
        None => false,
    };
    by_id || by_app
}

/// Finds the first window that an IPC focus command targets.
fn find_focus_target(spaces: &Vec<Workspace>, id: Option<u32>, app_id: Option<&str>) -> (r: Option<(usize, usize)>)
    ensures
        match r {
            Some((a, i)) => first_in_spaces(workspaces_view(spaces@), focus_target(id, opt_str_view(app_id))) == Some((a as int, i as int))
                && a < spaces@.len() && i < spaces@[a as int].windows@.len(),
            None => first_in_spaces(workspaces_view(spaces@), focus_target(id, opt_str_view(app_id))) is None,
        },
{
    let lower_target = match app_id {
        Some(t) => lower_str(t),
        None => Vec::new(),
    };
    let ghost sv = workspaces_view(spaces@);
    let ghost pred = focus_target(id, opt_str_view(app_id));
    let n = spaces.len();
    for a in 0..n
        invariant
            n == spaces@.len(),
            sv == workspaces_view(spaces@),
            pred == focus_target(id, opt_str_view(app_id)),
            app_id is Some ==> lower_target@ == lowercase(app_id->0@),
            forall|b: int| 0 <= b < a ==> first_with(#[trigger] sv[b], pred) >= sv[b].len(),
    {
        let ws = &spaces[a].windows;
        assert(sv[a as int] == ws@);
        let m = ws.len();
        for i in 0..m
            invariant
                m == ws@.len(),
                n == spaces@.len(),
                a < n,
                sv == workspaces_view(spaces@),
                spaces@[a as int].windows@ == ws@,
                sv[a as int] == ws@,
                pred == focus_target(id, opt_str_view(app_id)),
                forall|b: int| 0 <= b < a ==> first_with(#[trigger] sv[b], pred) >= sv[b].len(),
                app_id is Some ==> lower_target@ == lowercase(app_id->0@),
                forall|t: int| 0 <= t < i ==> !pred(#[trigger] ws@[t]),
        {
            if is_focus_target(&ws[i], id, app_id, &lower_target) {
                proof {
                    lemma_first_with_at(ws@, pred, i as int);
                    lemma_first_in_spaces(sv, pred, a as int);
                }
                return Some((a, i));
            }
        }
        proof {
            lemma_first_with(ws@, pred);
        }
    }
    proof {
        lemma_first_in_spaces(sv, pred, n as int);
    }
    None
}

/// The windows that a close command reaches.
fn find_close_targets(spaces: &Vec<Workspace>, id: u32) -> (r: Vec<u64>)
    ensures
        r@ == close_targets(workspaces_view(spaces@), id),
{
    let ghost sv = workspaces_view(spaces@);
    let ghost pred = has_id(id);
    let mut out: Vec<u64> = Vec::new();
    let n = spaces.len();
    assert(sv.take(0) =~= Seq::<Seq<Window>>::empty());
    for a in 0..n
        invariant
            n == spaces@.len(),
            sv == workspaces_view(spaces@),
            sv.len() == n,
            pred == has_id(id),
            out@ == close_targets(sv.take(a as int), id),
    {
        let ws = &spaces[a].windows;
        assert(sv[a as int] == ws@);
        assert(sv.take(a + 1).drop_last() =~= sv.take(a as int));
        assert(sv.take(a + 1).last() == ws@);
        proof {
            lemma_first_with(ws@, pred);
        }
        let m = ws.len();
        let mut i: usize = 0;
        while i < m && ws[i].id != id
            invariant
                m == ws@.len(),
                i <= m,
                pred == has_id(id),
                i <= first_with(ws@, pred),
                0 <= first_with(ws@, pred) <= ws@.len(),
                first_with(ws@, pred) < ws@.len() ==> pred(ws@[first_with(ws@, pred)]),
            decreases m - i,
        {
            i = i + 1;
        }
        if i < m {
            proof {
                assert forall|t: int| 0 <= t < i implies !pred(#[trigger] ws@[t]) by {
                    lemma_first_with(ws@, pred);
                }
                lemma_first_with_at(ws@, pred, i as int);
            }
            out.push(ws[i].handle);
        } else {
            assert(first_with(ws@, pred) == m);
        }
    }
    assert(sv.take(n as int) =~= sv);
    out
}

/// Builds `prefix` followed by the decimal number.
fn message_with_number(prefix: &str, n: u64) -> (r: String)
    ensures
        r@ == with_number(prefix@, n as nat),
{
    let mut v: Vec<char> = Vec::new();
    extend_str(&mut v, prefix);
    push_decimal(&mut v, n);
    string_from_chars(v.as_slice())
}

/// The reports of all windows, workspace by workspace.
fn window_infos(spaces: &Vec<Workspace>, focus: Option<u64>) -> (r: Vec<IpcWindowInfo>)
    ensures
        r@.map_values(|w: IpcWindowInfo| w@) == all_infos(workspaces_view(spaces@), focus),
{
    let ghost sv = workspaces_view(spaces@);
    let mut out: Vec<IpcWindowInfo> = Vec::new();
    let n = spaces.len();
    assert(sv.take(0) =~= Seq::<Seq<Window>>::empty());
    assert(out@.map_values(|w: IpcWindowInfo| w@) =~= Seq::<InfoSpec>::empty());
    for a in 0..n
        invariant
            n == spaces@.len(),
            n <= WORKSPACE_COUNT || n == spaces@.len(),
            sv == workspaces_view(spaces@),
            sv.len() == n,
            out@.map_values(|w: IpcWindowInfo| w@) == all_infos(sv.take(a as int), focus),
    {
        let ws = &spaces[a].windows;
        assert(sv[a as int] == ws@);
        let ghost start = out@.map_values(|w: IpcWindowInfo| w@);
        let m = ws.len();
        let num = a + 1;
        assert(sv.take(a + 1).drop_last() =~= sv.take(a as int));
        assert(sv.take(a + 1).last() == ws@);
        assert(sv.take(a + 1).len() == num);
        for i in 0..m
            invariant
                m == ws@.len(),
                num == a + 1,
                out@.map_values(|w: IpcWindowInfo| w@) == start + ws@.take(i as int).map_values(
                    |w: Window| info_of(w, num as int, focus),
                ),
        {
            let w = &ws[i];
            let info = IpcWindowInfo {
                id: w.id,
                workspace: num,
                title: crate::window::clone_opt_string(&w.title),
                app_id: crate::window::clone_opt_string(&w.app_id),
                x: w.rect.x,
                y: w.rect.y,
                width: w.rect.w,
                height: w.rect.h,
                minimized: w.minimized,
                floating: w.floating,
                focused: match focus {
                    Some(f) => f == w.handle,
                    None => false,
                },
            };
            let ghost before = out@;
            out.push(info);
            assert(out@.map_values(|w: IpcWindowInfo| w@) =~= before.map_values(|w: IpcWindowInfo| w@).push(info@));
            assert(ws@.take(i + 1).map_values(|w: Window| info_of(w, num as int, focus)) =~= ws@.take(i as int).map_values(|w: Window| info_of(w, num as int, focus)).push(info_of(ws@[i as int], num as int, focus)));
        }
        assert(ws@.take(m as int) =~= ws@);
    }
    assert(sv.take(n as int) =~= sv);
    out
}

impl Desktop {
    /// Applies an IPC command, given the window that has the keyboard focus
    /// (by handle). Returns the reply and what the compositor does next.
    pub fn process_ipc_command(&mut self, req: &IpcRequest, focus: Option<u64>) -> (r: (IpcResponse, IpcEffect))
        requires
            old(self).wf(),
        ensures
            final(self).wf(),
            ({
                let (spaces, active, resp, eff) = ipc_result(old(self).spaces(), old(self).active_workspace, req@, focus);
                &&& final(self).spaces() == spaces
                &&& final(self).active_workspace == active
                &&& r.0@ == resp
                &&& r.1@ == eff
            }),
    {
        match req {
            IpcRequest::ListWindows => {
                let windows = window_infos(&self.workspaces, focus);
                (IpcResponse::Windows { ok: true, windows }, IpcEffect::Nothing)
            },
            IpcRequest::Focus { id, app_id } => {
                match find_focus_target(&self.workspaces, *id, opt_as_str(app_id)) {
                    Some((a, i)) => {
                        let handle = self.workspaces[a].windows[i].handle;
                        let switched = a != self.active_workspace;
                        if switched {
                            self.switch_workspace(a);
                        }
                        (
                            IpcResponse::Done { ok: true, message: Some(String::from_str("foco asignado a ventana")) },
                            IpcEffect::Focus { handle, switched },
                        )
                    },
                    None => (
                        IpcResponse::Error { ok: false, error: String::from_str("ventana no encontrada") },
                        IpcEffect::Nothing,
                    ),
                }
            },
            IpcRequest::Close { id } => {
                let targets = find_close_targets(&self.workspaces, *id);
                if targets.len() > 0 {
                    (
                        IpcResponse::Done {
                            ok: true,
                            message: Some(message_with_number("senal de cierre enviada a ventana ", *id as u64)),
                        },
                        IpcEffect::Close(targets),
                    )
                } else {
                    let mut v: Vec<char> = Vec::new();
                    extend_str(&mut v, "ventana ");
                    push_decimal(&mut v, *id as u64);
                    extend_str(&mut v, " no encontrada");
                    (IpcResponse::Error { ok: false, error: string_from_chars(v.as_slice()) }, IpcEffect::Nothing)
                }
            },
            IpcRequest::Workspace { num } => {
                let num = *num;
                if 1 <= num && num <= WORKSPACE_COUNT {
                    self.switch_workspace(num - 1);
                    let vis = visible_handles_of(self.windows());
                    let first = if vis.len() > 0 {
                        Some(vis[0])
                    } else {
                        None
                    };
                    (
                        IpcResponse::Done {
                            ok: true,
                            message: Some(message_with_number("cambiado al workspace ", num as u64)),
                        },
                        IpcEffect::WorkspaceSwitched(first),
                    )
                } else {
                    (
                        IpcResponse::Error {
                            ok: false,
                            error: message_with_number("numero de workspace invalido: ", num as u64),
                        },
                        IpcEffect::Nothing,
                    )
                }
            },
            IpcRequest::MoveToWorkspace { id, num } => {
                let num = *num;
                let id = *id;
                if num < 1 || num > WORKSPACE_COUNT {
                    return (
                        IpcResponse::Error { ok: false, error: message_with_number("workspace invalido: ", num as u64) },
                        IpcEffect::Nothing,
                    );
                }
                let target = num - 1;
                match find_by_id(&self.workspaces, id) {
                    Some((src, pos)) => {
                        let mut v: Vec<char> = Vec::new();
                        extend_str(&mut v, "ventana ");
                        push_decimal(&mut v, id as u64);
                        extend_str(&mut v, " movida al workspace ");
                        push_decimal(&mut v, num as u64);
                        let message = string_from_chars(v.as_slice());
                        if src != target {
                            self.move_window(src, pos, target);
                            (IpcResponse::Done { ok: true, message: Some(message) }, IpcEffect::Retile)
                        } else {
                            (IpcResponse::Done { ok: true, message: Some(message) }, IpcEffect::Nothing)
                        }
                    },
                    None => {
                        let mut v: Vec<char> = Vec::new();
                        extend_str(&mut v, "ventana ");
                        push_decimal(&mut v, id as u64);
                        extend_str(&mut v, " no encontrada");
                        (IpcResponse::Error { ok: false, error: string_from_chars(v.as_slice()) }, IpcEffect::Nothing)
                    },
                }
            },
            IpcRequest::ReloadConfig => (
                IpcResponse::Done { ok: true, message: Some(String::from_str("configuracion recargada")) },
                IpcEffect::ReloadConfig,
            ),
            IpcRequest::GetConfig => (IpcResponse::Config { ok: true, toml: String::new() }, IpcEffect::ReadConfig),
            IpcRequest::Screenshot => (
                IpcResponse::Done { ok: true, message: Some(String::from_str("captura de pantalla solicitada")) },
                IpcEffect::Screenshot,
            ),
        }
    }
}

} // verus!
