use vinland::config::{FloatingConfig, KeyAction, ParsedKeybind, WindowRule};
use vinland::desktop::{activation_changes, find_keybind, first_matching_rule, Desktop, KeyOutcome};
use vinland::layout::{layout_fits_check, tile_order, tile_rect_at};
use vinland::window::{Rect, Window};

fn win(handle: u64, id: u32) -> Window {
    Window {
        handle,
        id,
        rect: Rect { x: 0, y: 0, w: 0, h: 0 },
        minimized: false,
        floating: false,
        tile_order: handle as usize,
        rules_evaluated: false,
        has_parent: false,
        app_id: None,
        title: None,
    }
}

fn floating_cfg() -> FloatingConfig {
    FloatingConfig { dialog_width: 600, dialog_height: 500 }
}

fn desktop_with(ws0: Vec<Window>) -> Desktop {
    let mut d = Desktop::new();
    d.workspaces[0].windows = ws0;
    d
}

#[test]
fn new_desktop_has_nine_empty_workspaces() {
    let d = Desktop::new();
    assert_eq!(d.workspaces.len(), 9);
    assert_eq!(d.active_workspace, 0);
    assert!(d.workspaces.iter().all(|w| w.windows.is_empty()));
}

#[test]
fn single_tiled_window_fills_output_minus_gaps() {
    let mut d = desktop_with(vec![win(1, 10)]);
    d.retile(1000, 800, 8, 488);
    assert_eq!(d.windows()[0].rect, Rect { x: 8, y: 8, w: 984, h: 784 });
}

#[test]
fn two_windows_split_master_and_stack() {
    let mut d = desktop_with(vec![win(1, 10), win(2, 11)]);
    d.retile(1000, 800, 8, 488);
    assert_eq!(d.windows()[0].rect, Rect { x: 8, y: 8, w: 488, h: 784 });
    assert_eq!(d.windows()[1].rect, Rect { x: 504, y: 8, w: 488, h: 784 });
}

#[test]
fn three_windows_stack_slots() {
    let mut d = desktop_with(vec![win(1, 10), win(2, 11), win(3, 12)]);
    d.retile(1000, 800, 8, 488);
    assert_eq!(d.windows()[1].rect, Rect { x: 504, y: 8, w: 488, h: 388 });
    assert_eq!(d.windows()[2].rect, Rect { x: 504, y: 404, w: 488, h: 388 });
}

#[test]
fn retile_follows_tile_order_and_skips_untiled() {
    let mut a = win(1, 10);
    a.tile_order = 5;
    let mut b = win(2, 11);
    b.tile_order = 1;
    let mut f = win(3, 12);
    f.floating = true;
    f.rect = Rect { x: 100, y: 100, w: 300, h: 200 };
    let mut m = win(4, 13);
    m.minimized = true;
    let mut d = desktop_with(vec![a, b, f, m]);
    assert_eq!(d.tiled_count(), 2);
    assert_eq!(tile_order(&d.workspaces[0].windows), vec![1, 0]);
    d.retile(1000, 800, 8, 488);
    assert_eq!(d.windows()[1].rect, Rect { x: 8, y: 8, w: 488, h: 784 });
    assert_eq!(d.windows()[0].rect, Rect { x: 504, y: 8, w: 488, h: 784 });
    assert_eq!(d.windows()[2].rect, Rect { x: 100, y: 100, w: 300, h: 200 });
    assert_eq!(d.windows()[3].rect, Rect { x: 0, y: 0, w: 0, h: 0 });
}

#[test]
fn tile_rect_values() {
    assert_eq!(tile_rect_at(0, 1, 1920, 1080, 10, 0), Rect { x: 10, y: 10, w: 1900, h: 1060 });
    assert_eq!(tile_rect_at(3, 4, 1000, 800, 8, 488), Rect { x: 504, y: 8 + 2 * (256 + 8), w: 488, h: 256 });
    assert!(layout_fits_check(3, 1000, 800, 8, 488));
    assert!(layout_fits_check(0, 0, 0, i32::MAX, 0));
    assert!(!layout_fits_check(2, 1000, 800, i32::MAX, 488));
}

#[test]
fn focus_next_and_prev_cycle() {
    let mut m = win(2, 11);
    m.minimized = true;
    let d = desktop_with(vec![win(1, 10), m, win(3, 12), win(4, 13)]);
    assert_eq!(d.focus_next_target(Some(1)), Some(3));
    assert_eq!(d.focus_next_target(Some(4)), Some(1));
    assert_eq!(d.focus_next_target(None), Some(1));
    assert_eq!(d.focus_prev_target(Some(1)), Some(4));
    assert_eq!(d.focus_prev_target(Some(3)), Some(1));
    assert_eq!(d.focus_prev_target(None), Some(4));
    // a focus outside the visible windows counts as the first one
    assert_eq!(d.focus_next_target(Some(2)), Some(3));
    assert_eq!(d.focus_prev_target(Some(99)), Some(4));
    let mut seen = Some(1);
    for _ in 0..3 {
        seen = d.focus_next_target(seen);
    }
    assert_eq!(seen, Some(1));
    assert_eq!(d.focus_prev_target(d.focus_next_target(Some(3))), Some(3));
}

#[test]
fn focus_on_empty_workspace_is_none() {
    let d = Desktop::new();
    assert_eq!(d.focus_next_target(None), None);
    assert_eq!(d.focus_prev_target(Some(1)), None);
}

#[test]
fn key_action_workspace_switch() {
    let mut d = desktop_with(vec![win(1, 10)]);
    d.workspaces[3].windows = vec![win(7, 20)];
    assert_eq!(d.apply_key_action(&KeyAction::Workspace(3), Some(1)), KeyOutcome::WorkspaceSwitched(Some(7)));
    assert_eq!(d.active_workspace, 3);
    assert_eq!(d.apply_key_action(&KeyAction::Workspace(3), None), KeyOutcome::Ignored);
    assert_eq!(d.apply_key_action(&KeyAction::Workspace(9), None), KeyOutcome::Ignored);
    assert_eq!(d.apply_key_action(&KeyAction::Workspace(5), None), KeyOutcome::WorkspaceSwitched(None));
    assert_eq!(d.active_workspace, 5);
}

#[test]
fn key_action_move_to_workspace() {
    let mut d = desktop_with(vec![win(1, 10), win(2, 11)]);
    assert_eq!(d.apply_key_action(&KeyAction::MoveToWorkspace(2), Some(1)), KeyOutcome::WindowMoved);
    assert_eq!(d.workspaces[0].windows.len(), 1);
    assert_eq!(d.workspaces[0].windows[0].handle, 2);
    assert_eq!(d.workspaces[2].windows[0].handle, 1);
    assert_eq!(d.apply_key_action(&KeyAction::MoveToWorkspace(0), Some(2)), KeyOutcome::Ignored);
    assert_eq!(d.apply_key_action(&KeyAction::MoveToWorkspace(4), None), KeyOutcome::Ignored);
    assert_eq!(d.apply_key_action(&KeyAction::MoveToWorkspace(4), Some(1)), KeyOutcome::Ignored);
}

#[test]
fn key_action_other_outcomes() {
    let mut d = desktop_with(vec![win(1, 10), win(2, 11)]);
    assert_eq!(d.apply_key_action(&KeyAction::FocusNext, Some(1)), KeyOutcome::Focus(2));
    assert_eq!(d.apply_key_action(&KeyAction::FocusPrev, Some(1)), KeyOutcome::Focus(2));
    assert_eq!(d.apply_key_action(&KeyAction::Close, Some(2)), KeyOutcome::Close(2));
    assert_eq!(d.apply_key_action(&KeyAction::Close, Some(9)), KeyOutcome::Ignored);
    assert_eq!(d.apply_key_action(&KeyAction::Close, None), KeyOutcome::Ignored);
    assert_eq!(d.apply_key_action(&KeyAction::Exit, None), KeyOutcome::Exit);
    assert_eq!(
        d.apply_key_action(&KeyAction::Exec("foot".to_string()), None),
        KeyOutcome::Spawn("foot".to_string())
    );
    let mut empty = Desktop::new();
    assert_eq!(empty.apply_key_action(&KeyAction::FocusNext, None), KeyOutcome::Ignored);
}

#[test]
fn keybind_lookup_matches_modifiers_and_syms() {
    let binds = vec![
        ParsedKeybind { logo: true, shift: false, ctrl: false, alt: false, sym: 0x31, action: KeyAction::Workspace(0) },
        ParsedKeybind { logo: true, shift: true, ctrl: false, alt: false, sym: 0x31, action: KeyAction::MoveToWorkspace(0) },
        ParsedKeybind { logo: true, shift: true, ctrl: false, alt: false, sym: 0x21, action: KeyAction::Close },
    ];
    assert_eq!(find_keybind(&binds, true, false, false, false, &vec![0x31], 0x31), Some(0));
    assert_eq!(find_keybind(&binds, true, true, false, false, &vec![0x31], 0x21), Some(1));
    assert_eq!(find_keybind(&binds, true, true, false, false, &vec![0x32], 0x21), Some(2));
    assert_eq!(find_keybind(&binds, false, false, false, false, &vec![0x31], 0x31), None);
    assert_eq!(find_keybind(&binds, true, false, true, false, &vec![0x31], 0x31), None);
}

#[test]
fn new_toplevel_tiled_on_active_workspace() {
    let mut d = Desktop::new();
    let r = d.new_toplevel(1, 10, Some("foot".to_string()), None, false, &vec![], &floating_cfg(), 8, 1000, 800).unwrap();
    assert_eq!(r.workspace, 0);
    assert!(!r.floating && r.retile && r.focus);
    assert_eq!(r.size, None);
    let w = &d.workspaces[0].windows[0];
    assert_eq!(w.tile_order, 0);
    assert_eq!(w.rect, Rect { x: 0, y: 0, w: 0, h: 0 });
    let r2 = d.new_toplevel(2, 11, None, None, false, &vec![], &floating_cfg(), 8, 1000, 800).unwrap();
    assert!(r2.retile);
    assert_eq!(d.workspaces[0].windows[1].tile_order, 1);
}

#[test]
fn new_toplevel_with_parent_floats() {
    let mut d = Desktop::new();
    let r = d.new_toplevel(1, 10, None, None, true, &vec![], &floating_cfg(), 8, 1000, 800).unwrap();
    assert!(r.floating && !r.retile && r.focus);
    assert_eq!(d.workspaces[0].windows[0].rect, Rect { x: 100, y: 100, w: 0, h: 0 });
}

#[test]
fn new_toplevel_rule_floats_centers_and_targets_workspace() {
    let rule = WindowRule {
        app_id: Some("pavucontrol".to_string()),
        title: None,
        float: Some(true),
        size: Some([400, 300]),
        center: None,
        workspace: Some(3),
    };
    let mut d = Desktop::new();
    let r = d
        .new_toplevel(5, 50, Some("Pavucontrol".to_string()), None, false, &vec![rule], &floating_cfg(), 8, 1000, 800)
        .unwrap();
    assert_eq!(r.workspace, 2);
    assert!(r.floating && !r.retile && !r.focus);
    assert_eq!(r.size, Some((400, 300)));
    assert_eq!(d.workspaces[2].windows[0].rect, Rect { x: 300, y: 250, w: 400, h: 300 });
    assert!(d.workspaces[0].windows.is_empty());
}

#[test]
fn new_toplevel_rule_center_clamps_to_gap_and_off_center() {
    let big = WindowRule { app_id: None, title: None, float: Some(true), size: Some([2000, 300]), center: None, workspace: None };
    let mut d = Desktop::new();
    d.new_toplevel(1, 10, None, None, false, &vec![big], &floating_cfg(), 8, 1000, 800).unwrap();
    assert_eq!(d.workspaces[0].windows[0].rect, Rect { x: 8, y: 250, w: 2000, h: 300 });
    let fixed = WindowRule { app_id: None, title: None, float: Some(true), size: None, center: Some(false), workspace: Some(42) };
    let mut d2 = Desktop::new();
    let r = d2.new_toplevel(1, 10, None, None, false, &vec![fixed], &floating_cfg(), 8, 1000, 800).unwrap();
    assert_eq!(r.workspace, 0);
    assert_eq!(d2.workspaces[0].windows[0].rect, Rect { x: 100, y: 100, w: 600, h: 500 });
}

#[test]
fn new_toplevel_refuses_overflowing_center() {
    let huge = WindowRule { app_id: None, title: None, float: Some(true), size: Some([i32::MIN, 1]), center: None, workspace: None };
    let mut d = Desktop::new();
    assert!(d.new_toplevel(1, 10, None, None, false, &vec![huge], &floating_cfg(), 8, i32::MAX, 800).is_none());
    assert!(d.workspaces[0].windows.is_empty());
}

#[test]
fn first_rule_that_matches_wins() {
    let r1 = WindowRule { app_id: Some("fire".to_string()), title: None, float: Some(false), size: None, center: None, workspace: None };
    let r2 = WindowRule { app_id: Some("firefox".to_string()), title: None, float: Some(true), size: None, center: None, workspace: None };
    let rules = vec![r1, r2];
    assert_eq!(first_matching_rule(&rules, Some("firefox"), None), 0);
    assert_eq!(first_matching_rule(&rules, Some("chromium"), None), 2);
}

#[test]
fn reevaluate_floats_a_tiled_window_once() {
    let mut d = desktop_with(vec![win(1, 10)]);
    let rule = WindowRule { app_id: None, title: None, float: Some(true), size: Some([200, 100]), center: None, workspace: None };
    let r = d.reevaluate_rules(1, Some(&rule), &floating_cfg(), 8, 1000, 800);
    assert_eq!(r, Some(Rect { x: 400, y: 350, w: 200, h: 100 }));
    let w = &d.workspaces[0].windows[0];
    assert!(w.floating && w.rules_evaluated);
    let mut d2 = desktop_with(vec![win(1, 10)]);
    assert_eq!(d2.reevaluate_rules(1, None, &floating_cfg(), 8, 1000, 800), None);
    assert!(d2.workspaces[0].windows[0].rules_evaluated);
    assert_eq!(d2.reevaluate_rules(1, Some(&rule), &floating_cfg(), 8, 1000, 800), None);
    assert!(!d2.workspaces[0].windows[0].floating);
}

#[test]
fn parent_change_floats_and_centers() {
    let mut d = desktop_with(vec![win(1, 10), win(2, 11)]);
    assert_eq!(d.parent_changed(2, &floating_cfg(), 1000, 800), Some((600, 500)));
    let w = &d.workspaces[0].windows[1];
    assert!(w.floating);
    assert_eq!(w.rect, Rect { x: 200, y: 150, w: 600, h: 500 });
    assert_eq!(d.parent_changed(9, &floating_cfg(), 1000, 800), None);
    // centering truncates toward zero
    assert_eq!(d.parent_changed(1, &floating_cfg(), 500, 400), Some((600, 500)));
    assert_eq!(d.workspaces[0].windows[0].rect, Rect { x: -50, y: -50, w: 600, h: 500 });
}

#[test]
fn minimize_and_remove() {
    let mut d = desktop_with(vec![win(1, 10), win(2, 11)]);
    assert!(d.minimize_window(2));
    assert!(d.workspaces[0].windows[1].minimized);
    assert!(!d.minimize_window(7));
    d.remove_window(1);
    assert_eq!(d.workspaces[0].windows.len(), 1);
    assert_eq!(d.workspaces[0].windows[0].handle, 2);
    d.remove_window(42);
    assert_eq!(d.workspaces[0].windows.len(), 1);
}

#[test]
fn raise_moves_window_to_top() {
    let mut d = desktop_with(vec![win(1, 10), win(2, 11), win(3, 12)]);
    d.raise_window(1);
    let order: Vec<u64> = d.workspaces[0].windows.iter().map(|w| w.handle).collect();
    assert_eq!(order, vec![2, 3, 1]);
    d.raise_window(1);
    d.raise_window(77);
    let order: Vec<u64> = d.workspaces[0].windows.iter().map(|w| w.handle).collect();
    assert_eq!(order, vec![2, 3, 1]);
}

#[test]
fn activation_changes_only_where_state_differs() {
    assert_eq!(activation_changes(&vec![true, false, false], Some(2)), vec![true, false, true]);
    assert_eq!(activation_changes(&vec![false, true], Some(1)), vec![false, false]);
    assert_eq!(activation_changes(&vec![true, true], None), vec![true, true]);
}

#[test]
fn retile_twice_changes_nothing() {
    let mut d = desktop_with(vec![win(1, 10), win(2, 11), win(3, 12), win(4, 13)]);
    d.retile(1280, 720, 6, 600);
    let once: Vec<Rect> = d.windows().iter().map(|w| w.rect).collect();
    d.retile(1280, 720, 6, 600);
    let twice: Vec<Rect> = d.windows().iter().map(|w| w.rect).collect();
    assert_eq!(once, twice);
}

#[test]
fn tiles_do_not_overlap_and_stay_inside() {
    let mut d = desktop_with((1..=5).map(|h| win(h, h as u32)).collect());
    d.retile(1000, 800, 8, 488);
    let rects: Vec<Rect> = d.windows().iter().map(|w| w.rect).collect();
    let overlaps = |a: &Rect, b: &Rect| a.x < b.x + b.w && b.x < a.x + a.w && a.y < b.y + b.h && b.y < a.y + a.h;
    for (i, a) in rects.iter().enumerate() {
        assert!(a.x >= 8 && a.y >= 8 && a.x + a.w <= 992 && a.y + a.h <= 792);
        for b in rects.iter().skip(i + 1) {
            assert!(!overlaps(a, b));
            let apart = a.x + a.w + 8 <= b.x || b.x + b.w + 8 <= a.x || a.y + a.h + 8 <= b.y || b.y + b.h + 8 <= a.y;
            assert!(apart);
        }
    }
}

#[test]
fn moving_keeps_every_window() {
    let mut d = desktop_with(vec![win(1, 10), win(2, 11), win(3, 12)]);
    d.move_window(0, 1, 6);
    let mut handles: Vec<u64> = d.workspaces.iter().flat_map(|ws| ws.windows.iter().map(|w| w.handle)).collect();
    handles.sort();
    assert_eq!(handles, vec![1, 2, 3]);
    assert_eq!(d.workspaces[6].windows[0].handle, 2);
}

#[test]
fn windows_mut_edits_the_active_workspace() {
    let mut d = desktop_with(vec![win(1, 10)]);
    d.switch_workspace(4);
    d.windows_mut().push(win(9, 90));
    assert_eq!(d.workspaces[4].windows.len(), 1);
    assert_eq!(d.workspaces[0].windows.len(), 1);
    assert_eq!(d.windows()[0].handle, 9);
}

#[test]
fn reevaluation_check_spots_overflowing_centering() {
    let d = desktop_with(vec![win(1, 10)]);
    let huge = WindowRule { app_id: None, title: None, float: Some(true), size: Some([i32::MIN, 1]), center: None, workspace: None };
    assert!(!d.reevaluation_fits_check(1, Some(&huge), &floating_cfg(), i32::MAX, 800));
    assert!(d.reevaluation_fits_check(2, Some(&huge), &floating_cfg(), i32::MAX, 800));
    assert!(d.reevaluation_fits_check(1, None, &floating_cfg(), i32::MAX, 800));
    let normal = WindowRule { app_id: None, title: None, float: Some(true), size: None, center: None, workspace: None };
    assert!(d.reevaluation_fits_check(1, Some(&normal), &floating_cfg(), 1000, 800));
}
