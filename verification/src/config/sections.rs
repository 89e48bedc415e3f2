//! The configuration's sections and their built-in defaults.

use vstd::prelude::*;

use crate::text::push_str;

verus! {
/// Pane management keybindings (used after the prefix).
#[derive(Debug, Clone, PartialEq, Eq)]
pub struct PaneBindings {
    pub split_horizontal: String,
    pub split_vertical: String,
    pub close: String,
    pub navigate_up: String,
    pub navigate_down: String,
    pub navigate_left: String,
    pub navigate_right: String,
    pub navigate_up_arrow: String,
    pub navigate_down_arrow: String,
    pub navigate_left_arrow: String,
    pub navigate_right_arrow: String,
}

impl PaneBindings {
    /// Whether every binding has its built-in default.
    pub open spec fn is_default(&self) -> bool {
        self.split_horizontal@ == "-"@
        && self.split_vertical@ == "p"@
        && self.close@ == "w"@
        && self.navigate_up@ == "k"@
        && self.navigate_down@ == "j"@
        && self.navigate_left@ == "h"@
        && self.navigate_right@ == "l"@
        && self.navigate_up_arrow@ == "up"@
        && self.navigate_down_arrow@ == "down"@
        && self.navigate_left_arrow@ == "left"@
        && self.navigate_right_arrow@ == "right"@
    }
}

impl Default for PaneBindings {
    fn default() -> (b: PaneBindings)
        ensures
            b.is_default(),
    {
        PaneBindings {
            split_horizontal: String::from_str("-"),
            split_vertical: String::from_str("p"),
            close: String::from_str("w"),
            navigate_up: String::from_str("k"),
            navigate_down: String::from_str("j"),
            navigate_left: String::from_str("h"),
            navigate_right: String::from_str("l"),
            navigate_up_arrow: String::from_str("up"),
            navigate_down_arrow: String::from_str("down"),
            navigate_left_arrow: String::from_str("left"),
            navigate_right_arrow: String::from_str("right"),
        }
    }
}

/// Window management keybindings (used after the prefix).
#[derive(Debug, Clone, PartialEq, Eq)]
pub struct WindowBindings {
    pub new: String,
    pub close: String,
    pub next: String,
    pub previous: String,
    pub previous_alt: String,
    pub select_1: String,
    pub select_2: String,
    pub select_3: String,
    pub select_4: String,
    pub select_5: String,
    pub select_6: String,
    pub select_7: String,
    pub select_8: String,
    pub select_9: String,
    pub select_10: String,
}

impl WindowBindings {
    /// Whether every binding has its built-in default.
    pub open spec fn is_default(&self) -> bool {
        self.new@ == "n"@
        && self.close@ == "x"@
        && self.next@ == "]"@
        && self.previous@ == "'"@
        && self.previous_alt@ == "["@
        && self.select_1@ == "1"@
        && self.select_2@ == "2"@
        && self.select_3@ == "3"@
        && self.select_4@ == "4"@
        && self.select_5@ == "5"@
        && self.select_6@ == "6"@
        && self.select_7@ == "7"@
        && self.select_8@ == "8"@
        && self.select_9@ == "9"@
        && self.select_10@ == "0"@
    }
}

impl Default for WindowBindings {
    fn default() -> (b: WindowBindings)
        ensures
            b.is_default(),
    {
        WindowBindings {
            new: String::from_str("n"),
            close: String::from_str("x"),
            next: String::from_str("]"),
            previous: String::from_str("'"),
            previous_alt: String::from_str("["),
            select_1: String::from_str("1"),
            select_2: String::from_str("2"),
            select_3: String::from_str("3"),
            select_4: String::from_str("4"),
            select_5: String::from_str("5"),
            select_6: String::from_str("6"),
            select_7: String::from_str("7"),
            select_8: String::from_str("8"),
            select_9: String::from_str("9"),
            select_10: String::from_str("0"),
        }
    }
}

/// Application keybindings (used after the prefix).
#[derive(Debug, Clone, PartialEq, Eq)]
pub struct AppBindings {
    pub quit: String,
    pub detach: String,
    pub send_prefix: String,
}

impl AppBindings {
    /// Whether every binding has its built-in default.
    pub open spec fn is_default(&self) -> bool {
        self.quit@ == "q"@
        && self.detach@ == "d"@
        && self.send_prefix@ == "c"@
    }
}

impl Default for AppBindings {
    fn default() -> (b: AppBindings)
        ensures
            b.is_default(),
    {
        AppBindings {
            quit: String::from_str("q"),
            detach: String::from_str("d"),
            send_prefix: String::from_str("c"),
        }
    }
}

/// Direct keybindings (no prefix needed).
#[derive(Debug, Clone, PartialEq, Eq)]
pub struct DirectBindings {
    pub scroll_up: String,
    pub scroll_down: String,
    pub paste: String,
    pub paste_alt: String,
}

impl DirectBindings {
    /// Whether every binding has its built-in default.
    pub open spec fn is_default(&self) -> bool {
        self.scroll_up@ == "shift+pageup"@
        && self.scroll_down@ == "shift+pagedown"@
        && self.paste@ == "super+v"@
        && self.paste_alt@ == "ctrl+shift+v"@
    }
}

impl Default for DirectBindings {
    fn default() -> (b: DirectBindings)
        ensures
            b.is_default(),
    {
        DirectBindings {
            scroll_up: String::from_str("shift+pageup"),
            scroll_down: String::from_str("shift+pagedown"),
            paste: String::from_str("super+v"),
            paste_alt: String::from_str("ctrl+shift+v"),
        }
    }
}

/// All keybinding categories.
#[derive(Debug, Clone, PartialEq, Eq)]
pub struct KeybindingsConfig {
    pub pane: PaneBindings,
    pub window: WindowBindings,
    pub app: AppBindings,
    pub direct: DirectBindings,
}

impl Default for KeybindingsConfig {
    fn default() -> (k: KeybindingsConfig)
        ensures
            k.pane.is_default(),
            k.window.is_default(),
            k.app.is_default(),
            k.direct.is_default(),
    {
        KeybindingsConfig {
            pane: PaneBindings::default(),
            window: WindowBindings::default(),
            app: AppBindings::default(),
            direct: DirectBindings::default(),
        }
    }
}

/// Prefix key configuration.
#[derive(Debug, Clone, PartialEq, Eq)]
pub struct PrefixConfig {
    pub key: String,
}

/// The prefix key used when none is configured.
pub const DEFAULT_PREFIX_KEY: &'static str = "alt+c";

impl Default for PrefixConfig {
    fn default() -> (p: PrefixConfig)
        ensures
            p.key@ == DEFAULT_PREFIX_KEY@,
    {
        PrefixConfig { key: String::from_str(DEFAULT_PREFIX_KEY) }
    }
}

/// Server logging configuration.
#[derive(Debug, Clone, PartialEq, Eq)]
pub struct ServerLoggingConfig {
    /// Log level: "error", "warn", "info", "debug" or "trace".
    pub log_level: String,
    /// Directory for log files; empty disables file logging, none means the
    /// default directory.
    pub log_dir: Option<String>,
}

impl Default for ServerLoggingConfig {
    fn default() -> (c: ServerLoggingConfig)
        ensures
            c.log_level@ == "info"@,
            c.log_dir is None,
    {
        ServerLoggingConfig { log_level: String::from_str("info"), log_dir: None }
    }
}

/// Selection configuration.
#[derive(Debug, Clone, Copy, PartialEq, Eq, Structural)]
pub struct SelectionConfig {
    /// Copy to the clipboard as soon as the mouse button is released: with
    /// mouse reporting on, the host terminal's own selection is not available
    /// inside a session.
    pub copy_on_select: bool,
}

impl Default for SelectionConfig {
    fn default() -> (c: SelectionConfig)
        ensures
            c.copy_on_select,
    {
        SelectionConfig { copy_on_select: true }
    }
}

/// Hyperlink configuration.
#[derive(Debug, Clone, Copy, PartialEq, Eq, Structural)]
pub struct LinksConfig {
    /// Turn URL-shaped text into OSC 8 hyperlinks for the host terminal, which
    /// cannot follow a URL that wraps inside a pane.
    pub auto_detect: bool,
}

impl Default for LinksConfig {
    fn default() -> (c: LinksConfig)
        ensures
            c.auto_detect,
    {
        LinksConfig { auto_detect: true }
    }
}

/// Root configuration.
#[derive(Debug, Clone, PartialEq, Eq)]
pub struct Config {
    pub prefix: PrefixConfig,
    pub keybindings: KeybindingsConfig,
    pub server: ServerLoggingConfig,
    pub links: LinksConfig,
    pub selection: SelectionConfig,
}

impl Config {
    /// Whether every setting has its built-in default.
    pub open spec fn is_default(&self) -> bool {
        &&& self.prefix.key@ == DEFAULT_PREFIX_KEY@
        &&& self.keybindings.pane.is_default()
        &&& self.keybindings.window.is_default()
        &&& self.keybindings.app.is_default()
        &&& self.keybindings.direct.is_default()
        &&& self.server.log_level@ == "info"@
        &&& self.server.log_dir is None
        &&& self.links.auto_detect
        &&& self.selection.copy_on_select
    }
}

impl Default for Config {
    fn default() -> (c: Config)
        ensures
            c.is_default(),
    {
        Config {
            prefix: PrefixConfig::default(),
            keybindings: KeybindingsConfig::default(),
            server: ServerLoggingConfig::default(),
            links: LinksConfig::default(),
            selection: SelectionConfig::default(),
        }
    }
}

} // verus!
