use vinland::desktop::Desktop;
use vinland::ipc::{IpcEffect, IpcRequest, IpcResponse, IpcWindowInfo};
use vinland::window::{Rect, Window};

fn win(handle: u64, id: u32, app_id: Option<&str>) -> Window {
    Window {
        handle,
        id,
        rect: Rect { x: 1, y: 2, w: 3, h: 4 },
        minimized: false,
        floating: false,
        tile_order: 0,
        rules_evaluated: false,
        has_parent: false,
        app_id: app_id.map(|s| s.to_string()),
        title: Some(format!("t{}", id)),
    }
}

fn sample() -> Desktop {
    let mut d = Desktop::new();
    d.workspaces[0].windows = vec![win(1, 10, Some("foot")), win(2, 11, Some("Firefox"))];
    d.workspaces[2].windows = vec![win(3, 12, Some("mpv"))];
    d
}

fn done(msg: &str) -> IpcResponse {
    IpcResponse::Done { ok: true, message: Some(msg.to_string()) }
}

fn error(msg: &str) -> IpcResponse {
    IpcResponse::Error { ok: false, error: msg.to_string() }
}

#[test]
fn list_windows_reports_every_workspace() {
    let mut d = sample();
    let (resp, eff) = d.process_ipc_command(&IpcRequest::ListWindows, Some(2));
    assert_eq!(eff, IpcEffect::Nothing);
    match resp {
        IpcResponse::Windows { ok, windows } => {
            assert!(ok);
            assert_eq!(windows.len(), 3);
            assert_eq!(
                windows[1],
                IpcWindowInfo {
                    id: 11,
                    workspace: 1,
                    title: Some("t11".to_string()),
                    app_id: Some("Firefox".to_string()),
                    x: 1,
                    y: 2,
                    width: 3,
                    height: 4,
                    minimized: false,
                    floating: false,
                    focused: true,
                }
            );
            assert!(!windows[0].focused);
            assert_eq!(windows[2].workspace, 3);
            assert_eq!(windows[2].id, 12);
        },
        other => panic!("unexpected reply {:?}", other),
    }
}

#[test]
fn focus_by_id_switches_workspace() {
    let mut d = sample();
    let (resp, eff) = d.process_ipc_command(&IpcRequest::Focus { id: Some(12), app_id: None }, None);
    assert_eq!(resp, done("foco asignado a ventana"));
    assert_eq!(eff, IpcEffect::Focus { handle: 3, switched: true });
    assert_eq!(d.active_workspace, 2);
}

#[test]
fn focus_by_app_id_substring_ignoring_case() {
    let mut d = sample();
    let (resp, eff) = d.process_ipc_command(&IpcRequest::Focus { id: None, app_id: Some("FOX".to_string()) }, None);
    assert_eq!(resp, done("foco asignado a ventana"));
    assert_eq!(eff, IpcEffect::Focus { handle: 2, switched: false });
    assert_eq!(d.active_workspace, 0);
}

#[test]
fn focus_not_found() {
    let mut d = sample();
    let (resp, eff) = d.process_ipc_command(&IpcRequest::Focus { id: Some(99), app_id: Some("zzz".to_string()) }, None);
    assert_eq!(resp, error("ventana no encontrada"));
    assert_eq!(eff, IpcEffect::Nothing);
    let (resp, _) = d.process_ipc_command(&IpcRequest::Focus { id: None, app_id: None }, None);
    assert_eq!(resp, error("ventana no encontrada"));
}

#[test]
fn close_reaches_first_match_in_each_workspace() {
    let mut d = sample();
    d.workspaces[4].windows = vec![win(8, 11, None), win(9, 11, None)];
    let (resp, eff) = d.process_ipc_command(&IpcRequest::Close { id: 11 }, None);
    assert_eq!(resp, done("senal de cierre enviada a ventana 11"));
    assert_eq!(eff, IpcEffect::Close(vec![2, 8]));
    let (resp, eff) = d.process_ipc_command(&IpcRequest::Close { id: 404 }, None);
    assert_eq!(resp, error("ventana 404 no encontrada"));
    assert_eq!(eff, IpcEffect::Nothing);
}

#[test]
fn workspace_command() {
    let mut d = sample();
    let (resp, eff) = d.process_ipc_command(&IpcRequest::Workspace { num: 3 }, None);
    assert_eq!(resp, done("cambiado al workspace 3"));
    assert_eq!(eff, IpcEffect::WorkspaceSwitched(Some(3)));
    assert_eq!(d.active_workspace, 2);
    let (resp, eff) = d.process_ipc_command(&IpcRequest::Workspace { num: 0 }, None);
    assert_eq!(resp, error("numero de workspace invalido: 0"));
    assert_eq!(eff, IpcEffect::Nothing);
    let (resp, _) = d.process_ipc_command(&IpcRequest::Workspace { num: 10 }, None);
    assert_eq!(resp, error("numero de workspace invalido: 10"));
    assert_eq!(d.active_workspace, 2);
}

#[test]
fn move_to_workspace_command() {
    let mut d = sample();
    let (resp, eff) = d.process_ipc_command(&IpcRequest::MoveToWorkspace { id: 10, num: 5 }, None);
    assert_eq!(resp, done("ventana 10 movida al workspace 5"));
    assert_eq!(eff, IpcEffect::Retile);
    assert_eq!(d.workspaces[4].windows[0].handle, 1);
    assert_eq!(d.workspaces[0].windows.len(), 1);
    let (resp, eff) = d.process_ipc_command(&IpcRequest::MoveToWorkspace { id: 10, num: 5 }, None);
    assert_eq!(resp, done("ventana 10 movida al workspace 5"));
    assert_eq!(eff, IpcEffect::Nothing);
    let (resp, _) = d.process_ipc_command(&IpcRequest::MoveToWorkspace { id: 10, num: 12 }, None);
    assert_eq!(resp, error("workspace invalido: 12"));
    let (resp, _) = d.process_ipc_command(&IpcRequest::MoveToWorkspace { id: 77, num: 1 }, None);
    assert_eq!(resp, error("ventana 77 no encontrada"));
}

#[test]
fn config_and_screenshot_commands() {
    let mut d = sample();
    let (resp, eff) = d.process_ipc_command(&IpcRequest::ReloadConfig, None);
    assert_eq!(resp, done("configuracion recargada"));
    assert_eq!(eff, IpcEffect::ReloadConfig);
    let (resp, eff) = d.process_ipc_command(&IpcRequest::GetConfig, None);
    assert_eq!(resp, IpcResponse::Config { ok: true, toml: String::new() });
    assert_eq!(eff, IpcEffect::ReadConfig);
    let (resp, eff) = d.process_ipc_command(&IpcRequest::Screenshot, None);
    assert_eq!(resp, done("captura de pantalla solicitada"));
    assert_eq!(eff, IpcEffect::Screenshot);
}

fn layout_of(d: &Desktop) -> Vec<Vec<u64>> {
    d.workspaces.iter().map(|ws| ws.windows.iter().map(|w| w.handle).collect()).collect()
}

#[test]
fn refused_commands_change_nothing() {
    let mut d = sample();
    let before = layout_of(&d);
    for req in [
        IpcRequest::Focus { id: Some(5), app_id: None },
        IpcRequest::Close { id: 5 },
        IpcRequest::Workspace { num: 0 },
        IpcRequest::MoveToWorkspace { id: 10, num: 0 },
        IpcRequest::MoveToWorkspace { id: 5, num: 2 },
    ] {
        let (resp, eff) = d.process_ipc_command(&req, Some(1));
        assert!(matches!(resp, IpcResponse::Error { ok: false, .. }));
        assert_eq!(eff, IpcEffect::Nothing);
        assert_eq!(layout_of(&d), before);
        assert_eq!(d.active_workspace, 0);
    }
}

#[test]
fn commands_keep_every_window() {
    let mut d = sample();
    d.process_ipc_command(&IpcRequest::MoveToWorkspace { id: 12, num: 9 }, None);
    d.process_ipc_command(&IpcRequest::Close { id: 10 }, None);
    d.process_ipc_command(&IpcRequest::Focus { id: Some(11), app_id: None }, None);
    let mut all: Vec<u64> = layout_of(&d).into_iter().flatten().collect();
    all.sort();
    assert_eq!(all, vec![1, 2, 3]);
    assert_eq!(d.workspaces[8].windows[0].handle, 3);
}
