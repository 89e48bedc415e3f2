//! Where the configuration came from, and its description for debugging.

use vstd::prelude::*;

use crate::config::sections::Config;
use crate::text::push_str;

verus! {

/// Where the configuration came from.
#[derive(Debug, Clone, PartialEq, Eq)]
pub enum ConfigSource {
    /// Loaded from the file at this path.
    File(String),
    /// The built-in defaults.
    Default,
}

/// How a configuration source is named.
pub open spec fn source_text(s: ConfigSource) -> Seq<char> {
    match s {
        ConfigSource::File(path) => path@,
        ConfigSource::Default => "(built-in defaults)"@,
    }
}

impl ConfigSource {
    /// The path of the file, or `(built-in defaults)`.
    pub fn message(&self) -> (s: String)
        ensures
            s@ == source_text(*self),
    {
        match self {
            ConfigSource::File(path) => path.clone(),
            ConfigSource::Default => String::from_str("(built-in defaults)"),
        }
    }
}

/// The text that `Debug` writes for a string: quoted, with escapes.
pub uninterp spec fn debug_quoted(s: Seq<char>) -> Seq<char>;

/// `format!("{:?}", s)`: the string quoted and escaped as `Debug` writes it.
#[verifier::external_body]
fn quoted(s: &str) -> (r: String)
    ensures
        r@ == debug_quoted(s@),
{
    format!("{:?}", s)
}

/// One setting's line: its name and its value as `Debug` quotes it.
pub open spec fn setting(name: Seq<char>, value: Seq<char>) -> Seq<char> {
    "  "@ + name + " = "@ + debug_quoted(value) + "\n"@
}

/// The description of a configuration and its source, line by line.
pub open spec fn config_text(c: Config, source: ConfigSource) -> Seq<char> {
    let pane = c.keybindings.pane;
    let window = c.keybindings.window;
    let app = c.keybindings.app;
    let direct = c.keybindings.direct;
    "Clux Configuration\n==================\n\nSource: "@ + source_text(source) + "\n\n[prefix]\n"@
        + setting("key"@, c.prefix.key@) + "\n[keybindings.pane]\n"@
        + setting("split_horizontal"@, pane.split_horizontal@)
        + setting("split_vertical"@, pane.split_vertical@)
        + setting("close"@, pane.close@)
        + setting("navigate_up"@, pane.navigate_up@)
        + setting("navigate_down"@, pane.navigate_down@)
        + setting("navigate_left"@, pane.navigate_left@)
        + setting("navigate_right"@, pane.navigate_right@)
        + "\n[keybindings.window]\n"@
        + setting("new"@, window.new@)
        + setting("close"@, window.close@)
        + setting("next"@, window.next@)
        + setting("previous"@, window.previous@)
        + "\n[keybindings.app]\n"@
        + setting("quit"@, app.quit@)
        + setting("send_prefix"@, app.send_prefix@)
        + "\n[keybindings.direct]\n"@
        + setting("scroll_up"@, direct.scroll_up@)
        + setting("scroll_down"@, direct.scroll_down@)
        + setting("paste"@, direct.paste@)
        + setting("paste_alt"@, direct.paste_alt@)
}

fn push_setting(out: &mut String, name: &str, value: &str)
    ensures
        final(out)@ == old(out)@ + setting(name@, value@),
{
    push_str(out, "  ");
    push_str(out, name);
    push_str(out, " = ");
    let q = quoted(value);
    push_str(out, q.as_str());
    push_str(out, "\n");
    proof {
        assert(final(out)@ =~= old(out)@ + setting(name@, value@));
    }
}

impl Config {
    /// The configuration and where it came from, as text for debugging.
    pub fn display_text(&self, source: &ConfigSource) -> (s: String)
        ensures
            s@ == config_text(*self, *source),
    {
        let pane = &self.keybindings.pane;
        let window = &self.keybindings.window;
        let app = &self.keybindings.app;
        let direct = &self.keybindings.direct;
        let mut s = String::new();
        push_str(&mut s, "Clux Configuration\n==================\n\nSource: ");
        let src = source.message();
        push_str(&mut s, src.as_str());
        push_str(&mut s, "\n\n[prefix]\n");
        push_setting(&mut s, "key", self.prefix.key.as_str());
        push_str(&mut s, "\n[keybindings.pane]\n");
        push_setting(&mut s, "split_horizontal", pane.split_horizontal.as_str());
        push_setting(&mut s, "split_vertical", pane.split_vertical.as_str());
        push_setting(&mut s, "close", pane.close.as_str());
        push_setting(&mut s, "navigate_up", pane.navigate_up.as_str());
        push_setting(&mut s, "navigate_down", pane.navigate_down.as_str());
        push_setting(&mut s, "navigate_left", pane.navigate_left.as_str());
        push_setting(&mut s, "navigate_right", pane.navigate_right.as_str());
        push_str(&mut s, "\n[keybindings.window]\n");
        push_setting(&mut s, "new", window.new.as_str());
        push_setting(&mut s, "close", window.close.as_str());
        push_setting(&mut s, "next", window.next.as_str());
        push_setting(&mut s, "previous", window.previous.as_str());
        push_str(&mut s, "\n[keybindings.app]\n");
        push_setting(&mut s, "quit", app.quit.as_str());
        push_setting(&mut s, "send_prefix", app.send_prefix.as_str());
        push_str(&mut s, "\n[keybindings.direct]\n");
        push_setting(&mut s, "scroll_up", direct.scroll_up.as_str());
        push_setting(&mut s, "scroll_down", direct.scroll_down.as_str());
        push_setting(&mut s, "paste", direct.paste.as_str());
        push_setting(&mut s, "paste_alt", direct.paste_alt.as_str());
        proof {
            assert(s@ =~= config_text(*self, *source));
        }
        s
    }
}

} // verus!
