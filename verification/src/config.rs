//! The compositor's configuration: key bindings, window rules and the
//! sections of `config.toml`, with the parsers for key combinations and
//! actions.

use vstd::prelude::*;
use crate::text::{
    chars_eq_str, chars_of, contains_chars, is_prefix, join_from, join_spaced, lower_chars, lower_str, lowercase,
    occurs_in, parse_usize, parsed_usize, split_char, split_on, split_whitespace, starts_with,
    string_from_chars, trim, trimmed, views, words,
};

verus! {

/// What a key binding does.
#[derive(Debug, Clone, PartialEq, Eq)]
pub enum KeyAction {
    /// Switch to a workspace (index from 0).
    Workspace(usize),
    /// Move the focused window to a workspace (index from 0).
    MoveToWorkspace(usize),
    /// Focus the next window of the active workspace.
    FocusNext,
    /// Focus the previous window of the active workspace.
    FocusPrev,
    Close,
    Exit,
    /// Run a shell command.
    Exec(String),
}

/// The mathematical value of a `KeyAction`.
pub enum ActionSpec {
    Workspace(usize),
    MoveToWorkspace(usize),
    FocusNext,
    FocusPrev,
    Close,
    Exit,
    Exec(Seq<char>),
}

impl View for KeyAction {
    type V = ActionSpec;

    open spec fn view(&self) -> ActionSpec {
        match self {
            KeyAction::Workspace(i) => ActionSpec::Workspace(*i),
            KeyAction::MoveToWorkspace(i) => ActionSpec::MoveToWorkspace(*i),
            KeyAction::FocusNext => ActionSpec::FocusNext,
            KeyAction::FocusPrev => ActionSpec::FocusPrev,
            KeyAction::Close => ActionSpec::Close,
            KeyAction::Exit => ActionSpec::Exit,
            KeyAction::Exec(s) => ActionSpec::Exec(s@),
        }
    }
}

impl KeyAction {
    /// A copy of the action.
    pub fn duplicate(&self) -> (r: KeyAction)
        ensures
            r@ == self@,
    {
        match self {
            KeyAction::Workspace(i) => KeyAction::Workspace(*i),
            KeyAction::MoveToWorkspace(i) => KeyAction::MoveToWorkspace(*i),
            KeyAction::FocusNext => KeyAction::FocusNext,
            KeyAction::FocusPrev => KeyAction::FocusPrev,
            KeyAction::Close => KeyAction::Close,
            KeyAction::Exit => KeyAction::Exit,
            KeyAction::Exec(s) => KeyAction::Exec(s.clone()),
        }
    }
}

/// Raw X keysym values (as in `xkeysym`) that the defaults and the parser name.
pub const KEYSYM_NONE: u32 = 0x0;
pub const KEYSYM_1: u32 = 0x31;
pub const KEYSYM_E: u32 = 0x45;
pub const KEYSYM_J: u32 = 0x4a;
pub const KEYSYM_K: u32 = 0x4b;
pub const KEYSYM_Q: u32 = 0x51;
pub const KEYSYM_SPACE: u32 = 0x20;
pub const KEYSYM_BACKSPACE: u32 = 0xff08;
pub const KEYSYM_TAB: u32 = 0xff09;
pub const KEYSYM_RETURN: u32 = 0xff0d;
pub const KEYSYM_ESCAPE: u32 = 0xff1b;

/// A key binding with its modifiers, its keysym and its action.
#[derive(Debug, Clone, PartialEq, Eq)]
pub struct ParsedKeybind {
    pub logo: bool,
    pub shift: bool,
    pub ctrl: bool,
    pub alt: bool,
    /// Raw keysym value.
    pub sym: u32,
    pub action: KeyAction,
}

/// The mathematical value of a `ParsedKeybind`.
pub struct BindSpec {
    pub logo: bool,
    pub shift: bool,
    pub ctrl: bool,
    pub alt: bool,
    pub sym: u32,
    pub action: ActionSpec,
}

impl ParsedKeybind {
    /// A copy of the binding.
    pub fn duplicate(&self) -> (r: ParsedKeybind)
        ensures
            r@ == self@,
    {
        ParsedKeybind {
            logo: self.logo,
            shift: self.shift,
            ctrl: self.ctrl,
            alt: self.alt,
            sym: self.sym,
            action: self.action.duplicate(),
        }
    }
}

impl View for ParsedKeybind {
    type V = BindSpec;

    open spec fn view(&self) -> BindSpec {
        BindSpec {
            logo: self.logo,
            shift: self.shift,
            ctrl: self.ctrl,
            alt: self.alt,
            sym: self.sym,
            action: self.action@,
        }
    }
}

/// The views of a sequence of key bindings.
pub open spec fn binds_view(v: Seq<ParsedKeybind>) -> Seq<BindSpec> {
    v.map_values(|b: ParsedKeybind| b@)
}

/// Pushing a binding pushes its view.
pub proof fn lemma_binds_view_push(v: Seq<ParsedKeybind>, x: ParsedKeybind)
    ensures
        binds_view(v.push(x)) == binds_view(v).push(x@),
{
    assert(binds_view(v.push(x)) =~= binds_view(v).push(x@));
}


/// The characters of an optional string slice.
pub open spec fn opt_str_view(o: Option<&str>) -> Option<Seq<char>> {
    match o {
        Some(s) => Some(s@),
        None => None,
    }
}

/// The characters of an optional string.
pub open spec fn opt_string_view(o: Option<String>) -> Option<Seq<char>> {
    match o {
        Some(s) => Some(s@),
        None => None,
    }
}

/// A declarative rule applied to windows when they open, chosen by their
/// `app_id` and/or title. A filter that is `None` does not restrict.
#[derive(Debug, Clone)]
pub struct WindowRule {
    /// Prefix of the window's app_id (case-insensitive).
    pub app_id: Option<String>,
    /// Substring of the window's title (case-insensitive).
    pub title: Option<String>,
    /// `true` forces floating, `false` forces tiling.
    pub float: Option<bool>,
    /// Size in logical pixels `[width, height]`.
    pub size: Option<[i32; 2]>,
    /// Center the window on screen when it opens.
    pub center: Option<bool>,
    /// Target workspace (1-9).
    pub workspace: Option<usize>,
}

/// Whether a rule with the given filters applies to a window with the given
/// app_id and title: the app_id filter must be a prefix of the window's
/// app_id, the title filter must occur in its title, both compared without
/// regard to case.
pub open spec fn rule_applies(
    rule_app_id: Option<Seq<char>>,
    rule_title: Option<Seq<char>>,
    app_id: Option<Seq<char>>,
    title: Option<Seq<char>>,
) -> bool {
    let app_ok = match rule_app_id {
        Some(r) => match app_id {
            Some(a) => is_prefix(lowercase(r), lowercase(a)),
            None => false,
        },
        None => true,
    };
    let title_ok = match rule_title {
        Some(r) => match title {
            Some(t) => occurs_in(lowercase(r), lowercase(t)),
            None => false,
        },
        None => true,
    };
    app_ok && title_ok
}

impl WindowRule {
    /// Whether this rule applies to a window with the given app_id and title.
    pub open spec fn applies_to(&self, app_id: Option<Seq<char>>, title: Option<Seq<char>>) -> bool {
        rule_applies(opt_string_view(self.app_id), opt_string_view(self.title), app_id, title)
    }

    /// Whether this rule applies to a window with the given app_id and title.
    pub fn matches(&self, app_id: Option<&str>, title: Option<&str>) -> (r: bool)
        ensures
            r == self.applies_to(opt_str_view(app_id), opt_str_view(title)),
    {
        let app_ok = match &self.app_id {
            Some(rule_id) => match app_id {
                Some(id) => {
                    let l = lower_str(id);
                    let p = lower_str(rule_id.as_str());
                    starts_with(l.as_slice(), p.as_slice())
                },
                None => false,
            },
            None => true,
        };
        let title_ok = match &self.title {
            Some(rule_title) => match title {
                Some(t) => {
                    let l = lower_str(t);
                    let p = lower_str(rule_title.as_str());
                    contains_chars(l.as_slice(), p.as_slice())
                },
                None => false,
            },
            None => true,
        };
        app_ok && title_ok
    }

    /// A copy of the rule.
    pub fn duplicate(&self) -> (r: WindowRule)
        ensures
            r == *self,
    {
        WindowRule {
            app_id: match &self.app_id {
                Some(a) => Some(a.clone()),
                None => None,
            },
            title: match &self.title {
                Some(t) => Some(t.clone()),
                None => None,
            },
            float: self.float,
            size: self.size,
            center: self.center,
            workspace: self.workspace,
        }
    }
}

impl Default for WindowRule {
    fn default() -> (r: WindowRule)
        ensures
            r.app_id is None,
            r.title is None,
            r.float is None,
            r.size is None,
            r.center is None,
            r.workspace is None,
    {
        WindowRule { app_id: None, title: None, float: None, size: None, center: None, workspace: None }
    }
}

/// The `[tiling]` section. The master ratio is a float and is applied by the
/// caller, which hands the layout the master column's width.
#[derive(Debug, Clone)]
pub struct TilingConfig {
    pub gap: i32,
}

impl Default for TilingConfig {
    fn default() -> (r: TilingConfig)
        ensures
            r.gap == 8,
    {
        TilingConfig { gap: 8 }
    }
}

/// The `[keyboard]` section.
#[derive(Debug, Clone)]
pub struct KeyboardConfig {
    /// Keyboard layout, e.g. "es", "us", "latam".
    pub layout: String,
    /// XKB options, e.g. "caps:escape".
    pub options: Option<String>,
    /// Milliseconds before a held key repeats.
    pub repeat_delay: i32,
    /// Repeats per second of a held key.
    pub repeat_rate: i32,
}

impl Default for KeyboardConfig {
    fn default() -> (r: KeyboardConfig)
        ensures
            r.layout@ == Seq::<char>::empty(),
            r.options is None,
            r.repeat_delay == 200,
            r.repeat_rate == 25,
    {
        KeyboardConfig { layout: String::new(), options: None, repeat_delay: 200, repeat_rate: 25 }
    }
}

/// How the wallpaper is scaled to the output.
#[derive(Debug, Clone, Copy, PartialEq, Eq, Structural)]
pub enum ScaleMode {
    /// Keep the aspect ratio without cropping (may leave bands).
    Fit,
    /// Keep the aspect ratio and crop what exceeds.
    Fill,
    /// Stretch to the output exactly (may distort).
    Stretch,
    /// Center without scaling.
    Center,
    /// Repeat as a mosaic.
    Tile,
}

impl Default for ScaleMode {
    fn default() -> (r: ScaleMode)
        ensures
            r == ScaleMode::Fill,
    {
        ScaleMode::Fill
    }
}

/// The `[background]` section, but for its color, which is a float tuple.
#[derive(Debug, Clone)]
pub struct BackgroundConfig {
    /// Path of the wallpaper image.
    pub wallpaper: Option<String>,
    /// How the wallpaper is scaled.
    pub wallpaper_mode: ScaleMode,
}

impl Default for BackgroundConfig {
    fn default() -> (r: BackgroundConfig)
        ensures
            r.wallpaper is None,
            r.wallpaper_mode == ScaleMode::Fill,
    {
        BackgroundConfig { wallpaper: None, wallpaper_mode: ScaleMode::Fill }
    }
}

/// The `[floating]` section: default size of floating dialogs.
#[derive(Debug, Clone)]
pub struct FloatingConfig {
    pub dialog_width: i32,
    pub dialog_height: i32,
}

impl Default for FloatingConfig {
    fn default() -> (r: FloatingConfig)
        ensures
            r.dialog_width == 600,
            r.dialog_height == 500,
    {
        FloatingConfig { dialog_width: 600, dialog_height: 500 }
    }
}

/// Which side draws window decorations.
#[derive(Debug, Clone, Copy, PartialEq, Eq, Structural)]
pub enum DecorationMode {
    /// Always server-side: the compositor draws borders.
    ServerSide,
    /// Always client-side: applications draw their own.
    ClientSide,
    /// Honour the application's preference, server-side when it has none.
    Auto,
}

/// The `[decoration]` section, but for its colors, which are float tuples.
#[derive(Debug, Clone)]
pub struct DecorationConfig {
    /// Border thickness in logical pixels (0 = no border).
    pub border_width: i32,
    pub mode: DecorationMode,
}

impl Default for DecorationConfig {
    fn default() -> (r: DecorationConfig)
        ensures
            r.border_width == 2,
            r.mode == DecorationMode::ServerSide,
    {
        DecorationConfig { border_width: 2, mode: DecorationMode::ServerSide }
    }
}

/// The whole configuration.
#[derive(Debug)]
pub struct Config {
    pub tiling: TilingConfig,
    pub keyboard: KeyboardConfig,
    pub background: BackgroundConfig,
    pub floating: FloatingConfig,
    pub decoration: DecorationConfig,
    /// Window rules, evaluated in order.
    pub rules: Vec<WindowRule>,
    /// The raw `[keybinds]` table: (key combination, action), in the order
    /// in which the table was read.
    pub keybinds: Vec<(String, String)>,
    /// The key bindings, filled after loading.
    pub parsed_keybinds: Vec<ParsedKeybind>,
}

impl Default for Config {
    fn default() -> (r: Config)
        ensures
            r.tiling.gap == 8,
            r.keyboard.layout@ == Seq::<char>::empty(),
            r.keyboard.options is None,
            r.keyboard.repeat_delay == 200,
            r.keyboard.repeat_rate == 25,
            r.background.wallpaper is None,
            r.background.wallpaper_mode == ScaleMode::Fill,
            r.floating.dialog_width == 600,
            r.floating.dialog_height == 500,
            r.decoration.border_width == 2,
            r.decoration.mode == DecorationMode::ServerSide,
            r.rules@.len() == 0,
            r.keybinds@.len() == 0,
            r.parsed_keybinds@.len() == 0,
            r.wf(),
    {
        Config {
            tiling: TilingConfig::default(),
            keyboard: KeyboardConfig::default(),
            background: BackgroundConfig::default(),
            floating: FloatingConfig::default(),
            decoration: DecorationConfig::default(),
            rules: Vec::new(),
            keybinds: Vec::new(),
            parsed_keybinds: Vec::new(),
        }
    }
}


/// A binding with the Super modifier, and Shift when `shift` holds.
pub open spec fn super_bind(shift: bool, sym: u32, action: ActionSpec) -> BindSpec {
    BindSpec { logo: true, shift, ctrl: false, alt: false, sym, action }
}

/// The default bindings: Super+N switches to workspace N and Super+Shift+N
/// moves the focused window there (N = 1..9); Super+J/K focus the next and
/// previous window; Super+Shift+Q closes; Super+Shift+E exits; Super+Return
/// runs a terminal.
pub open spec fn default_binds() -> Seq<BindSpec> {
    Seq::new(
        18,
        |i: int|
            if i % 2 == 0 {
                super_bind(false, (KEYSYM_1 + i / 2) as u32, ActionSpec::Workspace((i / 2) as usize))
            } else {
                super_bind(true, (KEYSYM_1 + i / 2) as u32, ActionSpec::MoveToWorkspace((i / 2) as usize))
            },
    ) + seq![
        super_bind(false, KEYSYM_J, ActionSpec::FocusNext),
        super_bind(false, KEYSYM_K, ActionSpec::FocusPrev),
        super_bind(true, KEYSYM_Q, ActionSpec::Close),
        super_bind(true, KEYSYM_E, ActionSpec::Exit),
        super_bind(false, KEYSYM_RETURN, ActionSpec::Exec("alacritty"@)),
    ]
}

fn super_keybind(shift: bool, sym: u32, action: KeyAction) -> (r: ParsedKeybind)
    ensures
        r@ == super_bind(shift, sym, action@),
{
    ParsedKeybind { logo: true, shift, ctrl: false, alt: false, sym, action }
}

/// The characters of the pieces of a key combination: split at `+`, trimmed.
pub open spec fn combo_parts(s: Seq<char>) -> Seq<Seq<char>> {
    split_on(s, '+').map_values(|p: Seq<char>| trimmed(p))
}

pub open spec fn is_logo_word(l: Seq<char>) -> bool {
    l == "super"@ || l == "mod4"@ || l == "logo"@ || l == "win"@
}

pub open spec fn is_shift_word(l: Seq<char>) -> bool {
    l == "shift"@
}

pub open spec fn is_ctrl_word(l: Seq<char>) -> bool {
    l == "ctrl"@ || l == "control"@
}

pub open spec fn is_alt_word(l: Seq<char>) -> bool {
    l == "alt"@ || l == "mod1"@
}

/// Modifier flags and key name of a key combination whose pieces are `parts`:
/// each piece that is (case-insensitively) a modifier name sets its flag,
/// and the last other piece is the key name.
pub struct ComboSpec {
    pub logo: bool,
    pub shift: bool,
    pub ctrl: bool,
    pub alt: bool,
    pub key: Option<Seq<char>>,
}

pub open spec fn combo_scan(parts: Seq<Seq<char>>) -> ComboSpec
    decreases parts.len(),
{
    if parts.len() == 0 {
        ComboSpec { logo: false, shift: false, ctrl: false, alt: false, key: None }
    } else {
        let c = combo_scan(parts.drop_last());
        let p = parts.last();
        let l = lowercase(p);
        if is_logo_word(l) {
            ComboSpec { logo: true, ..c }
        } else if is_shift_word(l) {
            ComboSpec { shift: true, ..c }
        } else if is_ctrl_word(l) {
            ComboSpec { ctrl: true, ..c }
        } else if is_alt_word(l) {
            ComboSpec { alt: true, ..c }
        } else {
            ComboSpec { key: Some(p), ..c }
        }
    }
}

/// The modifier flags and key name of a key combination string.
pub struct KeyCombination {
    pub logo: bool,
    pub shift: bool,
    pub ctrl: bool,
    pub alt: bool,
    pub key: Option<Vec<char>>,
}

impl View for KeyCombination {
    type V = ComboSpec;

    open spec fn view(&self) -> ComboSpec {
        ComboSpec {
            logo: self.logo,
            shift: self.shift,
            ctrl: self.ctrl,
            alt: self.alt,
            key: match self.key {
                Some(k) => Some(k@),
                None => None,
            },
        }
    }
}

/// Splits a key combination such as "Super+Shift+1" into its modifier flags
/// and its key name.
pub fn scan_key_combination(s: &str) -> (r: KeyCombination)
    ensures
        r@ == combo_scan(combo_parts(s@)),
{
    let chars = chars_of(s);
    let raw = split_char(chars.as_slice(), '+');
    let ghost parts = combo_parts(s@);
    let mut r = KeyCombination { logo: false, shift: false, ctrl: false, alt: false, key: None };
    let n = raw.len();
    assert(parts.take(0) =~= Seq::<Seq<char>>::empty());
    for i in 0..n
        invariant
            n == raw@.len(),
            views(raw@) == split_on(s@, '+'),
            parts == combo_parts(s@),
            parts.len() == n,
            r@ == combo_scan(parts.take(i as int)),
    {
        let part = trim(raw[i].as_slice());
        assert(part@ == parts[i as int]);
        assert(parts.take(i + 1).drop_last() =~= parts.take(i as int));
        let l = lower_chars(part.as_slice());
        if chars_eq_str(l.as_slice(), "super") || chars_eq_str(l.as_slice(), "mod4")
            || chars_eq_str(l.as_slice(), "logo") || chars_eq_str(l.as_slice(), "win") {
            r.logo = true;
        } else if chars_eq_str(l.as_slice(), "shift") {
            r.shift = true;
        } else if chars_eq_str(l.as_slice(), "ctrl") || chars_eq_str(l.as_slice(), "control") {
            r.ctrl = true;
        } else if chars_eq_str(l.as_slice(), "alt") || chars_eq_str(l.as_slice(), "mod1") {
            r.alt = true;
        } else {
            r.key = Some(part);
        }
    }
    assert(parts.take(n as int) =~= parts);
    r
}

/// Key names that are resolved without XKB, by their lowercase form.
pub open spec fn special_keysym_of(l: Seq<char>) -> Option<u32> {
    if l == "return"@ || l == "enter"@ {
        Some(KEYSYM_RETURN)
    } else if l == "esc"@ || l == "escape"@ {
        Some(KEYSYM_ESCAPE)
    } else if l == "space"@ {
        Some(KEYSYM_SPACE)
    } else if l == "backspace"@ {
        Some(KEYSYM_BACKSPACE)
    } else if l == "tab"@ {
        Some(KEYSYM_TAB)
    } else {
        None
    }
}

/// The keysym of a common key name that XKB does not know directly.
pub fn special_keysym(lower: &[char]) -> (r: Option<u32>)
    ensures
        r == special_keysym_of(lower@),
{
    if chars_eq_str(lower, "return") || chars_eq_str(lower, "enter") {
        Some(KEYSYM_RETURN)
    } else if chars_eq_str(lower, "esc") || chars_eq_str(lower, "escape") {
        Some(KEYSYM_ESCAPE)
    } else if chars_eq_str(lower, "space") {
        Some(KEYSYM_SPACE)
    } else if chars_eq_str(lower, "backspace") {
        Some(KEYSYM_BACKSPACE)
    } else if chars_eq_str(lower, "tab") {
        Some(KEYSYM_TAB)
    } else {
        None
    }
}

/// XKB's `keysym_from_name` flags.
pub const KEYSYM_NO_FLAGS: u32 = 0;
pub const KEYSYM_CASE_INSENSITIVE: u32 = 1;

/// The keysym for a key name whose special keysym is `special` and whose
/// XKB lookups gave `case_insensitive` and, if that was 0, `exact`.
pub open spec fn keysym_choice(special: Option<u32>, case_insensitive: u32, exact: u32) -> Option<u32> {
    match special {
        Some(k) => Some(k),
        None => if case_insensitive != KEYSYM_NONE {
            Some(case_insensitive)
        } else if exact != KEYSYM_NONE {
            Some(exact)
        } else {
            None
        },
    }
}

/// Chooses the keysym of a key name from its special keysym and its two
/// XKB lookups (case-insensitive first, then exact).
pub fn pick_keysym(special: Option<u32>, case_insensitive: u32, exact: u32) -> (r: Option<u32>)
    ensures
        r == keysym_choice(special, case_insensitive, exact),
{
    match special {
        Some(k) => Some(k),
        None => {
            if case_insensitive != KEYSYM_NONE {
                Some(case_insensitive)
            } else if exact != KEYSYM_NONE {
                Some(exact)
            } else {
                None
            }
        },
    }
}

/// Whether a key name has to be looked up in XKB: it is none of the special
/// names (compared without regard to case).
pub fn needs_xkb_lookup(key: &[char]) -> (r: bool)
    ensures
        r == (special_keysym_of(lowercase(key@)) is None),
{
    let lower = lower_chars(key);
    special_keysym(lower.as_slice()).is_none()
}

/// Whether a character sequence holds a NUL character.
pub fn contains_nul(v: &[char]) -> (r: bool)
    ensures
        r == v@.contains('\0'),
{
    let mut i: usize = 0;
    while i < v.len()
        invariant
            i <= v@.len(),
            forall|k: int| 0 <= k < i ==> v@[k] != '\0',
        decreases v@.len() - i,
    {
        if v[i] == '\0' {
            assert(v@[i as int] == '\0');
            return true;
        }
        i = i + 1;
    }
    false
}

/// What a scanned key combination gives, with `case_insensitive` and `exact`
/// the XKB lookups of its key name (with `KEYSYM_CASE_INSENSITIVE` and with
/// no flags): modifier flags and keysym, or `None` when there is no key
/// name, when the name holds a NUL character (XKB cannot take it), or when
/// it resolves to no keysym.
pub open spec fn combination_of(c: ComboSpec, case_insensitive: u32, exact: u32) -> Option<(bool, bool, bool, bool, u32)> {
    match c.key {
        None => None,
        Some(k) => if k.contains('\0') {
            None
        } else {
            match keysym_choice(special_keysym_of(lowercase(k)), case_insensitive, exact) {
                None => None,
                Some(sym) => Some((c.logo, c.shift, c.ctrl, c.alt, sym)),
            }
        },
    }
}

/// What parsing a key combination string gives, with the XKB lookups of
/// its key name.
pub open spec fn parsed_key_combination(s: Seq<char>, case_insensitive: u32, exact: u32) -> Option<(bool, bool, bool, bool, u32)> {
    combination_of(combo_scan(combo_parts(s)), case_insensitive, exact)
}

/// Parses a key combination given the XKB lookups of its key name
/// (`case_insensitive` with `KEYSYM_CASE_INSENSITIVE`, `exact` with no
/// flags); they are used only when the name is not a special one, and
/// `exact` only when `case_insensitive` is 0.
pub fn key_combination_with(s: &str, case_insensitive: u32, exact: u32) -> (r: Option<(bool, bool, bool, bool, u32)>)
    ensures
        r == parsed_key_combination(s@, case_insensitive, exact),
{
    let c = scan_key_combination(s);
    match c.key {
        None => None,
        Some(key) => {
            if contains_nul(key.as_slice()) {
                return None;
            }
            let lower = lower_chars(key.as_slice());
            let special = special_keysym(lower.as_slice());
            match pick_keysym(special, case_insensitive, exact) {
                None => None,
                Some(k) => Some((c.logo, c.shift, c.ctrl, c.alt, k)),
            }
        },
    }
}

/// A keysym lookup may be asked about any name without a NUL character:
/// `lookup(name, flags)` stands for XKB's `keysym_from_name`, which gives 0
/// for an unknown name.
pub open spec fn lookup_ready<F: Fn(&str, u32) -> u32>(lookup: F) -> bool {
    forall|n: &str, flags: u32| !n@.contains('\0') ==> call_requires(lookup, (n, flags))
}

/// `lookup` gave `v` for the name `k` with `flags`.
pub open spec fn lookup_gave<F: Fn(&str, u32) -> u32>(lookup: F, k: Seq<char>, flags: u32, v: u32) -> bool {
    exists|n: &str| n@ == k && call_ensures(lookup, (n, flags), v)
}

/// The lookups `lk` are what `lookup` gives for the key name of the
/// combination `s`, asked as XKB is asked: only for a name that is no
/// special one and holds no NUL, case-insensitively first and without flags
/// only when that gave 0.
pub open spec fn lookups_of<F: Fn(&str, u32) -> u32>(s: Seq<char>, lookup: F, lk: (u32, u32)) -> bool {
    match combo_scan(combo_parts(s)).key {
        Some(k) => !k.contains('\0') && special_keysym_of(lowercase(k)) is None ==> {
            &&& lookup_gave(lookup, k, KEYSYM_CASE_INSENSITIVE, lk.0)
            &&& lk.0 == KEYSYM_NONE ==> lookup_gave(lookup, k, KEYSYM_NO_FLAGS, lk.1)
        },
        None => true,
    }
}

/// Looks up the key name of a combination as XKB is asked for it.
fn key_lookups<F: Fn(&str, u32) -> u32>(s: &str, lookup: &F) -> (r: (u32, u32))
    requires
        lookup_ready(*lookup),
    ensures
        lookups_of(s@, *lookup, r),
{
    let c = scan_key_combination(s);
    match c.key {
        None => (KEYSYM_NONE, KEYSYM_NONE),
        Some(key) => {
            if contains_nul(key.as_slice()) || !needs_xkb_lookup(key.as_slice()) {
                return (KEYSYM_NONE, KEYSYM_NONE);
            }
            let name = string_from_chars(key.as_slice());
            let ci = lookup(name.as_str(), KEYSYM_CASE_INSENSITIVE);
            let exact = if ci == KEYSYM_NONE {
                lookup(name.as_str(), KEYSYM_NO_FLAGS)
            } else {
                KEYSYM_NONE
            };
            assert(lookup_gave(*lookup, key@, KEYSYM_CASE_INSENSITIVE, ci));
            if ci == KEYSYM_NONE {
                assert(lookup_gave(*lookup, key@, KEYSYM_NO_FLAGS, exact));
            }
            (ci, exact)
        },
    }
}

/// Parses a key combination such as "Super+Shift+1" or "Ctrl+Alt+t" into
/// (logo, shift, ctrl, alt, keysym), resolving the key name with `lookup`
/// (XKB's `keysym_from_name`): special names (Return, Escape, space, ...)
/// first, then the case-insensitive lookup, then the exact one. `None` when
/// there is no key name, when it holds a NUL character, or when it resolves
/// to no keysym.
pub fn parse_key_combination<F: Fn(&str, u32) -> u32>(s: &str, lookup: &F) -> (r: Option<(bool, bool, bool, bool, u32)>)
    requires
        lookup_ready(*lookup),
    ensures
        exists|ci: u32, exact: u32| lookups_of(s@, *lookup, (ci, exact)) && r == parsed_key_combination(s@, ci, exact),
{
    let (ci, exact) = key_lookups(s, lookup);
    key_combination_with(s, ci, exact)
}

pub open spec fn is_move_word(l: Seq<char>) -> bool {
    l == "move_to_workspace"@ || l == "movetoworkspace"@ || l == "move_workspace"@
}

/// The workspace index (from 0) that a 1-based workspace number in words[1]
/// names, when it is 1..9.
pub open spec fn workspace_arg(parts: Seq<Seq<char>>) -> Option<usize> {
    if parts.len() < 2 {
        None
    } else {
        match parsed_usize(parts[1]) {
            Some(n) => if 1 <= n <= 9 {
                Some((n - 1) as usize)
            } else {
                None
            },
            None => None,
        }
    }
}

/// What parsing an action such as "workspace 1", "close" or "exec alacritty"
/// gives. The first word is compared case-insensitively.
pub open spec fn parsed_action(s: Seq<char>) -> Option<ActionSpec> {
    let parts = words(trimmed(s));
    if parts.len() == 0 {
        None
    } else {
        let head = lowercase(parts[0]);
        if head == "workspace"@ {
            match workspace_arg(parts) {
                Some(i) => Some(ActionSpec::Workspace(i)),
                None => None,
            }
        } else if is_move_word(head) {
            match workspace_arg(parts) {
                Some(i) => Some(ActionSpec::MoveToWorkspace(i)),
                None => None,
            }
        } else if head == "close"@ || head == "kill"@ {
            Some(ActionSpec::Close)
        } else if head == "exit"@ || head == "quit"@ {
            Some(ActionSpec::Exit)
        } else if head == "focus_next"@ || head == "focusnext"@ {
            Some(ActionSpec::FocusNext)
        } else if head == "focus_prev"@ || head == "focusprev"@ {
            Some(ActionSpec::FocusPrev)
        } else if head == "focus"@ {
            if parts.len() < 2 {
                None
            } else {
                let t = lowercase(parts[1]);
                if t == "next"@ {
                    Some(ActionSpec::FocusNext)
                } else if t == "prev"@ || t == "previous"@ {
                    Some(ActionSpec::FocusPrev)
                } else {
                    None
                }
            }
        } else if head == "exec"@ || head == "spawn"@ {
            if parts.len() > 1 {
                Some(ActionSpec::Exec(join_spaced(parts.skip(1))))
            } else {
                None
            }
        } else {
            None
        }
    }
}

/// An `exec` or `spawn` action runs its command as written: when the first
/// word of the trimmed action is `exec` or `spawn` (in any case) and more
/// words follow, the command is those words, unchanged, joined by single
/// spaces; with exactly one word after it, the command is that word.
pub proof fn lemma_exec_keeps_command(s: Seq<char>)
    requires
        words(trimmed(s)).len() >= 2,
        lowercase(words(trimmed(s))[0]) == "exec"@ || lowercase(words(trimmed(s))[0]) == "spawn"@,
    ensures
        parsed_action(s) == Some(ActionSpec::Exec(join_spaced(words(trimmed(s)).skip(1)))),
        words(trimmed(s)).len() == 2 ==> parsed_action(s) == Some(ActionSpec::Exec(words(trimmed(s))[1])),
{
    reveal_strlit("exec");
    reveal_strlit("spawn");
    reveal_strlit("workspace");
    reveal_strlit("move_to_workspace");
    reveal_strlit("movetoworkspace");
    reveal_strlit("move_workspace");
    reveal_strlit("close");
    reveal_strlit("kill");
    reveal_strlit("exit");
    reveal_strlit("quit");
    reveal_strlit("focus_next");
    reveal_strlit("focusnext");
    reveal_strlit("focus_prev");
    reveal_strlit("focusprev");
    reveal_strlit("focus");
    let parts = words(trimmed(s));
    let head = lowercase(parts[0]);
    assert(head.len() == 4 || head.len() == 5);
    assert("workspace"@.len() == 9);
    assert("move_to_workspace"@.len() == 17 && "movetoworkspace"@.len() == 15 && "move_workspace"@.len() == 14);
    assert(head != "workspace"@);
    assert(!is_move_word(head));
    assert(head[0] == 'e' || head[0] == 's');
    assert(head == "exec"@ ==> head[2] == 'e');
    assert("close"@[0] == 'c' && "kill"@[0] == 'k' && "quit"@[0] == 'q' && "focus"@[0] == 'f');
    assert("exit"@[2] == 'i' && "exit"@[0] == 'e');
    assert(head != "close"@ && head != "kill"@ && head != "quit"@);
    assert(head != "exit"@) by {
        if head == "exit"@ {
            assert(head[0] == 'e');
            assert(head == "exec"@);
            assert(head[2] == 'e');
        }
    }
    assert(head != "focus_next"@ && head != "focusnext"@ && head != "focus_prev"@ && head != "focusprev"@);
    assert(head != "focus"@);
    if parts.len() == 2 {
        assert(parts.skip(1) =~= seq![parts[1]]);
    }
}

/// The view of an optional action.
pub open spec fn opt_action_view(a: Option<KeyAction>) -> Option<ActionSpec> {
    match a {
        Some(x) => Some(x@),
        None => None,
    }
}

fn workspace_argument(parts: &Vec<Vec<char>>) -> (r: Option<usize>)
    ensures
        r == workspace_arg(views(parts@)),
{
    if parts.len() < 2 {
        return None;
    }
    match parse_usize(parts[1].as_slice()) {
        Some(n) => if 1 <= n && n <= 9 {
            Some(n - 1)
        } else {
            None
        },
        None => None,
    }
}

/// Parses an action such as "workspace 1", "close" or "exec alacritty".
pub fn parse_action(s: &str) -> (r: Option<KeyAction>)
    ensures
        opt_action_view(r) == parsed_action(s@),
{
    let chars = chars_of(s);
    let t = trim(chars.as_slice());
    let parts = split_whitespace(t.as_slice());
    let ghost ps = views(parts@);
    if parts.len() == 0 {
        return None;
    }
    let head = lower_chars(parts[0].as_slice());
    let h = head.as_slice();
    if chars_eq_str(h, "workspace") {
        match workspace_argument(&parts) {
            Some(i) => Some(KeyAction::Workspace(i)),
            None => None,
        }
    } else if chars_eq_str(h, "move_to_workspace") || chars_eq_str(h, "movetoworkspace")
        || chars_eq_str(h, "move_workspace") {
        match workspace_argument(&parts) {
            Some(i) => Some(KeyAction::MoveToWorkspace(i)),
            None => None,
        }
    } else if chars_eq_str(h, "close") || chars_eq_str(h, "kill") {
        Some(KeyAction::Close)
    } else if chars_eq_str(h, "exit") || chars_eq_str(h, "quit") {
        Some(KeyAction::Exit)
    } else if chars_eq_str(h, "focus_next") || chars_eq_str(h, "focusnext") {
        Some(KeyAction::FocusNext)
    } else if chars_eq_str(h, "focus_prev") || chars_eq_str(h, "focusprev") {
        Some(KeyAction::FocusPrev)
    } else if chars_eq_str(h, "focus") {
        if parts.len() < 2 {
            return None;
        }
        let target = lower_chars(parts[1].as_slice());
        if chars_eq_str(target.as_slice(), "next") {
            Some(KeyAction::FocusNext)
        } else if chars_eq_str(target.as_slice(), "prev") || chars_eq_str(
            target.as_slice(),
            "previous",
        ) {
            Some(KeyAction::FocusPrev)
        } else {
            None
        }
    } else if chars_eq_str(h, "exec") || chars_eq_str(h, "spawn") {
        if parts.len() > 1 {
            let joined = join_from(parts.as_slice(), 1);
            Some(KeyAction::Exec(string_from_chars(joined.as_slice())))
        } else {
            None
        }
    } else {
        None
    }
}

/// The bindings that a `[keybinds]` table yields, in the table's order:
/// each entry whose key combination and action both parse; `lookups[i]` is
/// the pair of XKB lookups of entry `i`'s key name (the two have the same
/// length).
pub open spec fn table_binds(kb: Seq<(Seq<char>, Seq<char>)>, lookups: Seq<(u32, u32)>) -> Seq<BindSpec>
    decreases kb.len(),
{
    if kb.len() == 0 {
        Seq::<BindSpec>::empty()
    } else {
        let init = table_binds(kb.drop_last(), lookups.drop_last());
        let entry = kb.last();
        let lk = lookups.last();
        match (parsed_key_combination(entry.0, lk.0, lk.1), parsed_action(entry.1)) {
            (Some(c), Some(a)) => init.push(
                BindSpec { logo: c.0, shift: c.1, ctrl: c.2, alt: c.3, sym: c.4, action: a },
            ),
            _ => init,
        }
    }
}

/// The lookups are what `lookup` gives for each entry's key name.
pub open spec fn table_lookups<F: Fn(&str, u32) -> u32>(kb: Seq<(Seq<char>, Seq<char>)>, lookup: F, lookups: Seq<(u32, u32)>) -> bool {
    &&& lookups.len() == kb.len()
    &&& forall|i: int| 0 <= i < kb.len() ==> lookups_of(#[trigger] kb[i].0, lookup, lookups[i])
}

/// No key combination occurs twice in a `[keybinds]` table (it is a TOML
/// table, whose keys are distinct).
pub open spec fn keys_distinct(kb: Seq<(String, String)>) -> bool {
    forall|i: int, j: int| 0 <= i < j < kb.len() ==> kb[i].0@ != kb[j].0@
}

/// The characters of a `[keybinds]` table.
pub open spec fn table_view(kb: Seq<(String, String)>) -> Seq<(Seq<char>, Seq<char>)> {
    kb.map_values(|e: (String, String)| (e.0@, e.1@))
}

impl Config {
    /// Appends the default bindings to `parsed_keybinds`.
    pub fn populate_default_keybinds(&mut self)
        ensures
            binds_view(final(self).parsed_keybinds@) == binds_view(old(self).parsed_keybinds@)
                + default_binds(),
            final(self).tiling == old(self).tiling,
            final(self).keyboard == old(self).keyboard,
            final(self).background == old(self).background,
            final(self).floating == old(self).floating,
            final(self).decoration == old(self).decoration,
            final(self).rules == old(self).rules,
            final(self).keybinds == old(self).keybinds,
    {
        let ghost start = binds_view(self.parsed_keybinds@);
        let ghost d = default_binds();
        assert(d.take(0) =~= Seq::<BindSpec>::empty());
        assert(binds_view(self.parsed_keybinds@) =~= start + d.take(0));
        for i in 0..9usize
            invariant
                d == default_binds(),
                binds_view(self.parsed_keybinds@) == start + d.take(2 * i),
                self.tiling == old(self).tiling,
                self.keyboard == old(self).keyboard,
                self.background == old(self).background,
                self.floating == old(self).floating,
                self.decoration == old(self).decoration,
                self.rules == old(self).rules,
                self.keybinds == old(self).keybinds,
        {
            let sym = KEYSYM_1 + i as u32;
            let b1 = super_keybind(false, sym, KeyAction::Workspace(i));
            let b2 = super_keybind(true, sym, KeyAction::MoveToWorkspace(i));
            assert(d[2 * i] == b1@);
            assert(d[2 * i + 1] == b2@);
            let ghost before = self.parsed_keybinds@;
            let ghost v1 = b1@;
            let ghost v2 = b2@;
            self.parsed_keybinds.push(b1);
            proof {
                lemma_binds_view_push(before, b1);
            }
            let ghost mid = self.parsed_keybinds@;
            self.parsed_keybinds.push(b2);
            proof {
                lemma_binds_view_push(mid, b2);
                assert(d.take(2 * i + 2) =~= d.take(2 * i).push(v1).push(v2));
            }
        }
        assert(d.take(18) =~= d.subrange(0, 18));
        let ghost at18 = self.parsed_keybinds@;
        let tail = [
            super_keybind(false, KEYSYM_J, KeyAction::FocusNext),
            super_keybind(false, KEYSYM_K, KeyAction::FocusPrev),
            super_keybind(true, KEYSYM_Q, KeyAction::Close),
            super_keybind(true, KEYSYM_E, KeyAction::Exit),
            super_keybind(false, KEYSYM_RETURN, KeyAction::Exec(String::from_str("alacritty"))),
        ];
        proof {
            reveal_strlit("alacritty");
        }
        let mut k: usize = 0;
        let ghost tv = tail@.map_values(|b: ParsedKeybind| b@);
        assert(tv =~= d.skip(18));
        while k < 5
            invariant
                k <= 5,
                tail@.len() == 5,
                tv == tail@.map_values(|b: ParsedKeybind| b@),
                binds_view(self.parsed_keybinds@) == binds_view(at18) + tv.take(k as int),
                binds_view(at18) == start + d.take(18),
                self.tiling == old(self).tiling,
                self.keyboard == old(self).keyboard,
                self.background == old(self).background,
                self.floating == old(self).floating,
                self.decoration == old(self).decoration,
                self.rules == old(self).rules,
                self.keybinds == old(self).keybinds,
            decreases 5 - k,
        {
            let ghost before = self.parsed_keybinds@;
            let b = tail[k].duplicate();
            self.parsed_keybinds.push(b);
            proof {
                lemma_binds_view_push(before, b);
                assert(tv.take(k + 1) =~= tv.take(k as int).push(tv[k as int]));
            }
            k = k + 1;
        }
        assert(tv.take(5) =~= tv);
        assert(d =~= d.take(18) + d.skip(18));
        assert(binds_view(self.parsed_keybinds@) =~= start + d);
    }
}


impl Config {
    /// The configuration is well formed: its key binding table has no key
    /// twice.
    pub open spec fn wf(&self) -> bool {
        keys_distinct(self.keybinds@)
    }

    /// Fills `parsed_keybinds` from the `[keybinds]` table, in the table's
    /// order; entries whose key combination or action does not parse are
    /// skipped. Key names are resolved with `lookup` (XKB's
    /// `keysym_from_name`), as `parse_key_combination` does. When the table
    /// is empty, the default bindings are appended instead.
    pub fn parse_keybinds_in_place<F: Fn(&str, u32) -> u32>(&mut self, lookup: &F)
        requires
            old(self).wf(),
            lookup_ready(*lookup),
        ensures
            final(self).wf(),
            old(self).keybinds@.len() == 0 ==> binds_view(final(self).parsed_keybinds@)
                == binds_view(old(self).parsed_keybinds@) + default_binds(),
            old(self).keybinds@.len() > 0 ==> exists|lookups: Seq<(u32, u32)>|
                table_lookups(table_view(old(self).keybinds@), *lookup, lookups)
                && binds_view(final(self).parsed_keybinds@) == table_binds(table_view(old(self).keybinds@), lookups),
            final(self).tiling == old(self).tiling,
            final(self).keyboard == old(self).keyboard,
            final(self).background == old(self).background,
            final(self).floating == old(self).floating,
            final(self).decoration == old(self).decoration,
            final(self).rules == old(self).rules,
            final(self).keybinds == old(self).keybinds,
    {
        if self.keybinds.len() == 0 {
            self.populate_default_keybinds();
            return;
        }
        let mut out: Vec<ParsedKeybind> = Vec::new();
        let n = self.keybinds.len();
        let ghost tv = table_view(self.keybinds@);
        let ghost mut lks: Seq<(u32, u32)> = Seq::empty();
        assert(tv.take(0) =~= Seq::<(Seq<char>, Seq<char>)>::empty());
        for i in 0..n
            invariant
                n == self.keybinds@.len(),
                tv == table_view(self.keybinds@),
                lookup_ready(*lookup),
                lks.len() == i,
                forall|k: int| 0 <= k < i ==> lookups_of(#[trigger] tv[k].0, *lookup, lks[k]),
                binds_view(out@) == table_binds(tv.take(i as int), lks),
        {
            let entry = &self.keybinds[i];
            assert(tv.take(i + 1).drop_last() =~= tv.take(i as int));
            assert(tv.take(i + 1).last() == (entry.0@, entry.1@));
            let (ci, exact) = key_lookups(entry.0.as_str(), lookup);
            let ghost prev = lks;
            proof {
                lks = lks.push((ci, exact));
                assert(lks.drop_last() =~= prev);
            }
            let combo = key_combination_with(entry.0.as_str(), ci, exact);
            let action = parse_action(entry.1.as_str());
            match (combo, action) {
                (Some((logo, shift, ctrl, alt, sym)), Some(action)) => {
                    let ghost before = out@;
                    let b = ParsedKeybind { logo, shift, ctrl, alt, sym, action };
                    out.push(b);
                    proof {
                        lemma_binds_view_push(before, b);
                    }
                },
                _ => {},
            }
        }
        assert(tv.take(n as int) =~= tv);
        assert(table_lookups(tv, *lookup, lks));
        self.parsed_keybinds = out;
    }
}


/// The decoration mode a window ends up with.
#[derive(Debug, Clone, Copy, PartialEq, Eq, Structural)]
pub enum DecorationChoice {
    ClientSide,
    ServerSide,
}

/// The decoration mode for a window: what the configuration forces, or under
/// `Auto` what the application asks for, server-side when it asks nothing.
pub open spec fn decoration_for(mode: DecorationMode, app_request: Option<DecorationChoice>) -> DecorationChoice {
    match mode {
        DecorationMode::ServerSide => DecorationChoice::ServerSide,
        DecorationMode::ClientSide => DecorationChoice::ClientSide,
        DecorationMode::Auto => match app_request {
            Some(DecorationChoice::ClientSide) => DecorationChoice::ClientSide,
            _ => DecorationChoice::ServerSide,
        },
    }
}

/// The decoration mode to apply given the configuration and the
/// application's request (`None` when it expressed none).
pub fn effective_decoration_mode(config: &DecorationConfig, app_request: Option<DecorationChoice>) -> (r: DecorationChoice)
    ensures
        r == decoration_for(config.mode, app_request),
{
    match config.mode {
        DecorationMode::ServerSide => DecorationChoice::ServerSide,
        DecorationMode::ClientSide => DecorationChoice::ClientSide,
        DecorationMode::Auto => match app_request {
            Some(DecorationChoice::ClientSide) => DecorationChoice::ClientSide,
            _ => DecorationChoice::ServerSide,
        },
    }
}

/// Two optional strings hold the same characters.
fn opt_string_eq(a: &Option<String>, b: &Option<String>) -> (r: bool)
    ensures
        r == (opt_string_view(*a) == opt_string_view(*b)),
{
    match (a, b) {
        (Some(x), Some(y)) => x.eq(y),
        (None, None) => true,
        _ => false,
    }
}

/// Whether a new configuration changes the wallpaper (its path or its
/// scaling mode), so that it has to be loaded again.
pub fn wallpaper_changed(old: &BackgroundConfig, new: &BackgroundConfig) -> (r: bool)
    ensures
        r == (opt_string_view(old.wallpaper) != opt_string_view(new.wallpaper) || old.wallpaper_mode != new.wallpaper_mode),
{
    !opt_string_eq(&old.wallpaper, &new.wallpaper) || old.wallpaper_mode != new.wallpaper_mode
}

/// Name of the IPC socket file, which lies in the runtime directory (as in
/// `/run/user/1000/vinland.sock`).
pub fn ipc_socket_file_name() -> (r: String)
    ensures
        r@ == "vinland.sock"@,
{
    let v = chars_of("vinland.sock");
    string_from_chars(v.as_slice())
}

} // verus!
