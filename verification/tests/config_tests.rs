use vinland::config::{
    contains_nul, effective_decoration_mode, ipc_socket_file_name, key_combination_with, needs_xkb_lookup,
    parse_action, parse_key_combination,
    pick_keysym, scan_key_combination, special_keysym, wallpaper_changed,
    BackgroundConfig, Config, DecorationChoice, DecorationConfig, DecorationMode, KeyAction,
    ScaleMode, WindowRule, KEYSYM_1, KEYSYM_E, KEYSYM_J, KEYSYM_K, KEYSYM_Q, KEYSYM_RETURN,
};

/// A stand-in for XKB that knows the names of a few keys, case-insensitively.
fn fake_xkb(name: &str, flags: u32) -> u32 {
    let exact = match name {
        "1" => 0x31,
        "2" => 0x32,
        "t" => 0x74,
        "T" => 0x54,
        "x" => 0x78,
        "odd" => 0x1234,
        _ => 0,
    };
    if flags == 1 && name != "odd" {
        match name.to_lowercase().as_str() {
            "1" => 0x31,
            "2" => 0x32,
            "t" => 0x74,
            "x" => 0x78,
            _ => 0,
        }
    } else {
        exact
    }
}

/// A stand-in for XKB that knows no name.
fn no_xkb(_name: &str, _flags: u32) -> u32 {
    0
}

fn rule(app_id: Option<&str>, title: Option<&str>) -> WindowRule {
    WindowRule {
        app_id: app_id.map(|s| s.to_string()),
        title: title.map(|s| s.to_string()),
        float: None,
        size: None,
        center: None,
        workspace: None,
    }
}

#[test]
fn action_workspace_numbers_are_one_based() {
    assert_eq!(parse_action("workspace 1"), Some(KeyAction::Workspace(0)));
    assert_eq!(parse_action("workspace 9"), Some(KeyAction::Workspace(8)));
    assert_eq!(parse_action("  Workspace   3  "), Some(KeyAction::Workspace(2)));
}

#[test]
fn action_workspace_out_of_range_is_rejected() {
    assert_eq!(parse_action("workspace 0"), None);
    assert_eq!(parse_action("workspace 10"), None);
    assert_eq!(parse_action("workspace"), None);
    assert_eq!(parse_action("workspace x"), None);
    assert_eq!(parse_action("workspace -1"), None);
}

#[test]
fn action_workspace_accepts_plus_sign() {
    assert_eq!(parse_action("workspace +4"), Some(KeyAction::Workspace(3)));
}

#[test]
fn action_move_to_workspace_aliases() {
    assert_eq!(parse_action("move_to_workspace 2"), Some(KeyAction::MoveToWorkspace(1)));
    assert_eq!(parse_action("movetoworkspace 5"), Some(KeyAction::MoveToWorkspace(4)));
    assert_eq!(parse_action("move_workspace 9"), Some(KeyAction::MoveToWorkspace(8)));
    assert_eq!(parse_action("move_workspace 12"), None);
}

#[test]
fn action_simple_words() {
    assert_eq!(parse_action("close"), Some(KeyAction::Close));
    assert_eq!(parse_action("KILL"), Some(KeyAction::Close));
    assert_eq!(parse_action("exit"), Some(KeyAction::Exit));
    assert_eq!(parse_action("quit"), Some(KeyAction::Exit));
    assert_eq!(parse_action("focus_next"), Some(KeyAction::FocusNext));
    assert_eq!(parse_action("focusnext"), Some(KeyAction::FocusNext));
    assert_eq!(parse_action("focus_prev"), Some(KeyAction::FocusPrev));
    assert_eq!(parse_action("focusprev"), Some(KeyAction::FocusPrev));
}

#[test]
fn action_focus_with_direction() {
    assert_eq!(parse_action("focus next"), Some(KeyAction::FocusNext));
    assert_eq!(parse_action("focus Previous"), Some(KeyAction::FocusPrev));
    assert_eq!(parse_action("focus prev"), Some(KeyAction::FocusPrev));
    assert_eq!(parse_action("focus up"), None);
    assert_eq!(parse_action("focus"), None);
}

#[test]
fn action_exec_joins_words_with_single_spaces() {
    assert_eq!(
        parse_action("exec   foot   --server  x"),
        Some(KeyAction::Exec("foot --server x".to_string()))
    );
    assert_eq!(parse_action("spawn alacritty"), Some(KeyAction::Exec("alacritty".to_string())));
    assert_eq!(parse_action("exec"), None);
}

#[test]
fn action_unknown_or_empty() {
    assert_eq!(parse_action(""), None);
    assert_eq!(parse_action("   "), None);
    assert_eq!(parse_action("fly away"), None);
}

#[test]
fn combination_modifiers_and_digit() {
    assert_eq!(key_combination_with("Super+Shift+1", KEYSYM_1, 0), Some((true, true, false, false, KEYSYM_1)));
    assert_eq!(key_combination_with("mod4 + 1", KEYSYM_1, KEYSYM_1), Some((true, false, false, false, KEYSYM_1)));
}

#[test]
fn combination_special_names_ignore_lookups() {
    assert_eq!(key_combination_with("Super+Return", 5, 6), Some((true, false, false, false, KEYSYM_RETURN)));
    assert_eq!(key_combination_with("Super+ENTER", 0, 0), Some((true, false, false, false, KEYSYM_RETURN)));
    assert_eq!(special_keysym(&['e', 's', 'c']), Some(0xff1b));
    assert_eq!(special_keysym(&['t', 'a', 'b']), Some(0xff09));
    assert_eq!(special_keysym(&['s', 'p', 'a', 'c', 'e']), Some(0x20));
    assert_eq!(special_keysym(&['b', 'a', 'c', 'k', 's', 'p', 'a', 'c', 'e']), Some(0xff08));
    assert_eq!(special_keysym(&['x']), None);
    assert!(!needs_xkb_lookup(&['E', 's', 'C', 'a', 'p', 'e']));
    assert!(needs_xkb_lookup(&['t']));
}

#[test]
fn combination_uses_case_insensitive_lookup_first() {
    assert_eq!(key_combination_with("Ctrl+Alt+t", 0x74, 0x74), Some((false, false, true, true, 0x74)));
    assert_eq!(key_combination_with("Ctrl+Alt+t", 0x74, 0x54), Some((false, false, true, true, 0x74)));
    assert_eq!(key_combination_with("Super+odd", 0, 0x1234), Some((true, false, false, false, 0x1234)));
    assert_eq!(pick_keysym(None, 0, 0), None);
    assert_eq!(pick_keysym(Some(9), 1, 2), Some(9));
}

#[test]
fn combination_looks_names_up() {
    assert_eq!(parse_key_combination("Ctrl+Alt+T", &fake_xkb), Some((false, false, true, true, 0x74)));
    assert_eq!(parse_key_combination("Super+odd", &fake_xkb), Some((true, false, false, false, 0x1234)));
    assert_eq!(parse_key_combination("Super+Return", &no_xkb), Some((true, false, false, false, KEYSYM_RETURN)));
    assert_eq!(parse_key_combination("Super+unknown", &fake_xkb), None);
    assert_eq!(parse_key_combination("Super+Shift", &fake_xkb), None);
}

#[test]
fn combination_with_nul_is_refused_without_lookup() {
    let panicking = |_: &str, _: u32| -> u32 { panic!("looked up a name with NUL") };
    assert_eq!(parse_key_combination("Super+a\0b", &panicking), None);
    assert_eq!(key_combination_with("Super+a\0b", 0x61, 0x61), None);
    assert!(contains_nul(&['a', '\0']));
    assert!(!contains_nul(&['a']));
}

#[test]
fn combination_asks_exact_only_after_a_miss() {
    let calls = std::cell::RefCell::new(Vec::new());
    let recording = |n: &str, f: u32| -> u32 {
        calls.borrow_mut().push((n.to_string(), f));
        if f == 0 { 0x99 } else { 0 }
    };
    assert_eq!(parse_key_combination("Alt+zz", &recording), Some((false, false, false, true, 0x99)));
    assert_eq!(*calls.borrow(), vec![("zz".to_string(), 1), ("zz".to_string(), 0)]);
}

#[test]
fn combination_without_key_or_unknown_key() {
    assert_eq!(key_combination_with("Super+Shift", 1, 1), None);
    // an empty string is one empty key name, which XKB does not know
    assert_eq!(scan_key_combination("").key, Some(vec![]));
    assert_eq!(key_combination_with("", 0, 0), None);
    assert_eq!(key_combination_with("Super+NoSuchKeyName", 0, 0), None);
}

#[test]
fn combination_scan_takes_the_last_key_name() {
    let c = scan_key_combination("ctrl+a+b");
    assert!(c.ctrl);
    assert!(!c.logo);
    assert_eq!(c.key, Some(vec!['b']));
    let m = scan_key_combination(" Control + MOD1 + Win + shift ");
    assert!(m.ctrl && m.alt && m.logo && m.shift);
    assert_eq!(m.key, None);
}

#[test]
fn default_keybinds_are_twenty_three() {
    let mut c = Config::default();
    c.parse_keybinds_in_place(&no_xkb);
    assert_eq!(c.parsed_keybinds.len(), 23);
    let first = &c.parsed_keybinds[0];
    assert!(first.logo && !first.shift && first.sym == KEYSYM_1);
    assert_eq!(first.action, KeyAction::Workspace(0));
    let second = &c.parsed_keybinds[1];
    assert!(second.logo && second.shift && second.sym == KEYSYM_1);
    assert_eq!(second.action, KeyAction::MoveToWorkspace(0));
    assert_eq!(c.parsed_keybinds[17].action, KeyAction::MoveToWorkspace(8));
    assert_eq!(c.parsed_keybinds[18].sym, KEYSYM_J);
    assert_eq!(c.parsed_keybinds[18].action, KeyAction::FocusNext);
    assert_eq!(c.parsed_keybinds[19].sym, KEYSYM_K);
    assert_eq!(c.parsed_keybinds[19].action, KeyAction::FocusPrev);
    assert_eq!(c.parsed_keybinds[20].sym, KEYSYM_Q);
    assert_eq!(c.parsed_keybinds[20].action, KeyAction::Close);
    assert_eq!(c.parsed_keybinds[21].sym, KEYSYM_E);
    assert_eq!(c.parsed_keybinds[21].action, KeyAction::Exit);
    assert_eq!(c.parsed_keybinds[22].sym, KEYSYM_RETURN);
    assert_eq!(c.parsed_keybinds[22].action, KeyAction::Exec("alacritty".to_string()));
}

#[test]
fn keybind_table_keeps_valid_entries_in_order() {
    let mut c = Config::default();
    c.keybinds = vec![
        ("Super+Return".to_string(), "exec foot".to_string()),
        ("Super+".to_string(), "close".to_string()),
        ("Super+1".to_string(), "workspace 12".to_string()),
        ("Alt+2".to_string(), "workspace 2".to_string()),
    ];
    c.parse_keybinds_in_place(&fake_xkb);
    assert_eq!(c.parsed_keybinds.len(), 2);
    assert_eq!(c.parsed_keybinds[0].action, KeyAction::Exec("foot".to_string()));
    assert!(c.parsed_keybinds[1].alt && !c.parsed_keybinds[1].logo);
    assert_eq!(c.parsed_keybinds[1].action, KeyAction::Workspace(1));
}

#[test]
fn keybind_table_replaces_earlier_bindings() {
    let mut c = Config::default();
    c.parse_keybinds_in_place(&no_xkb);
    c.keybinds = vec![("Super+x".to_string(), "exit".to_string())];
    c.parse_keybinds_in_place(&fake_xkb);
    assert_eq!(c.parsed_keybinds.len(), 1);
    assert_eq!(c.parsed_keybinds[0].sym, 0x78);
    assert_eq!(c.parsed_keybinds[0].action, KeyAction::Exit);
}

#[test]
fn config_defaults() {
    let c = Config::default();
    assert_eq!(c.tiling.gap, 8);
    assert_eq!(c.keyboard.layout, "");
    assert_eq!(c.keyboard.repeat_delay, 200);
    assert_eq!(c.keyboard.repeat_rate, 25);
    assert_eq!(c.background.wallpaper, None);
    assert_eq!(c.background.wallpaper_mode, ScaleMode::Fill);
    assert_eq!(c.floating.dialog_width, 600);
    assert_eq!(c.floating.dialog_height, 500);
    assert_eq!(c.decoration.border_width, 2);
}

#[test]
fn rule_matches_prefix_ignoring_case() {
    let r = rule(Some("Firefox"), None);
    assert!(r.matches(Some("firefox-esr"), None));
    assert!(r.matches(Some("FIREFOX"), Some("anything")));
    assert!(!r.matches(Some("org.firefox"), None));
    assert!(!r.matches(None, None));
}

#[test]
fn rule_title_filter_is_a_substring() {
    let r = rule(None, Some("open file"));
    assert!(r.matches(None, Some("Open File - Documents")));
    assert!(r.matches(None, Some("Dialog: Open File")));
    assert!(!r.matches(None, Some("Open Folder")));
    assert!(!r.matches(Some("x"), None));
}

#[test]
fn rule_needs_both_filters() {
    let r = rule(Some("mpv"), Some("picture"));
    assert!(r.matches(Some("mpv"), Some("Picture-in-Picture")));
    assert!(!r.matches(Some("vlc"), Some("Picture-in-Picture")));
    assert!(!r.matches(Some("mpv"), Some("video")));
    assert!(rule(None, None).matches(None, None));
}

#[test]
fn decoration_mode_choice() {
    let forced = DecorationConfig { border_width: 2, mode: DecorationMode::ServerSide };
    assert_eq!(effective_decoration_mode(&forced, Some(DecorationChoice::ClientSide)), DecorationChoice::ServerSide);
    let client = DecorationConfig { border_width: 2, mode: DecorationMode::ClientSide };
    assert_eq!(effective_decoration_mode(&client, None), DecorationChoice::ClientSide);
    let auto = DecorationConfig { border_width: 2, mode: DecorationMode::Auto };
    assert_eq!(effective_decoration_mode(&auto, Some(DecorationChoice::ClientSide)), DecorationChoice::ClientSide);
    assert_eq!(effective_decoration_mode(&auto, None), DecorationChoice::ServerSide);
}

#[test]
fn wallpaper_change_detection() {
    let a = BackgroundConfig { wallpaper: Some("/a.png".to_string()), wallpaper_mode: ScaleMode::Fill };
    let b = BackgroundConfig { wallpaper: Some("/a.png".to_string()), wallpaper_mode: ScaleMode::Fit };
    let c = BackgroundConfig { wallpaper: Some("/b.png".to_string()), wallpaper_mode: ScaleMode::Fill };
    let d = BackgroundConfig { wallpaper: Some("/a.png".to_string()), wallpaper_mode: ScaleMode::Fill };
    assert!(wallpaper_changed(&a, &b));
    assert!(wallpaper_changed(&a, &c));
    assert!(!wallpaper_changed(&a, &d));
    assert!(wallpaper_changed(&a, &BackgroundConfig::default()));
}

#[test]
fn socket_file_name() {
    assert_eq!(ipc_socket_file_name(), "vinland.sock");
}
