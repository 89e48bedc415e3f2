//! Tables from keys to action names, built from the configuration.

use vstd::prelude::*;

use crate::config::keys::{key_matches, parse_key, ConfigError, ParsedKey};
use crate::config::sections::Config;
use crate::input::{KeyCode, KeyModifiers};
use crate::text::{join_path, path_join};

verus! {

/// The position of key `k` among the entries, or their number.
pub open spec fn key_pos(b: Seq<(ParsedKey, Seq<char>)>, k: ParsedKey) -> int
    decreases b.len(),
{
    if b.len() == 0 {
        0
    } else if b[0].0 == k {
        0
    } else {
        1 + key_pos(b.drop_first(), k)
    }
}

/// The entries with `k` bound to `v`: an existing entry for `k` takes the new
/// action in place, else the entry goes at the end.
pub open spec fn assoc_insert(b: Seq<(ParsedKey, Seq<char>)>, k: ParsedKey, v: Seq<char>) -> Seq<(ParsedKey, Seq<char>)> {
    let i = key_pos(b, k);
    if i < b.len() {
        b.update(i, (k, v))
    } else {
        b.push((k, v))
    }
}

/// The table built from (key specification, action) pairs in order; a key
/// specification that does not parse is skipped.
pub open spec fn bindings_from(pairs: Seq<(Seq<char>, Seq<char>)>) -> Seq<(ParsedKey, Seq<char>)>
    decreases pairs.len(),
{
    if pairs.len() == 0 {
        Seq::empty()
    } else {
        let b = bindings_from(pairs.drop_last());
        match parse_key(pairs.last().0) {
            Ok(k) => assoc_insert(b, k, pairs.last().1),
            Err(_) => b,
        }
    }
}

/// The position of the first entry matching an event's key and modifiers.
pub open spec fn first_match(b: Seq<(ParsedKey, Seq<char>)>, code: KeyCode, modifiers: KeyModifiers) -> int
    decreases b.len(),
{
    if b.len() == 0 {
        0
    } else if key_matches(b[0].0, code, modifiers) {
        0
    } else {
        1 + first_match(b.drop_first(), code, modifiers)
    }
}

proof fn lemma_key_pos(b: Seq<(ParsedKey, Seq<char>)>, k: ParsedKey, i: int)
    requires
        0 <= i <= b.len(),
        forall|j: int| 0 <= j < i ==> b[j].0 != k,
        i == b.len() || b[i].0 == k,
    ensures
        key_pos(b, k) == i,
    decreases i,
{
    if i > 0 {
        lemma_key_pos(b.drop_first(), k, i - 1);
    }
}

proof fn lemma_first_match(b: Seq<(ParsedKey, Seq<char>)>, code: KeyCode, modifiers: KeyModifiers, i: int)
    requires
        0 <= i <= b.len(),
        forall|j: int| 0 <= j < i ==> !key_matches(#[trigger] b[j].0, code, modifiers),
        i == b.len() || key_matches(b[i].0, code, modifiers),
    ensures
        first_match(b, code, modifiers) == i,
    decreases i,
{
    if i > 0 {
        assert forall|j: int| 0 <= j < i - 1 implies !key_matches(#[trigger] b.drop_first()[j].0, code, modifiers) by {
            assert(b.drop_first()[j] == b[j + 1]);
        }
        lemma_first_match(b.drop_first(), code, modifiers, i - 1);
    }
}

/// Keys bound to action names, each key once, in the order first bound.
pub struct KeyBindings {
    entries: Vec<(ParsedKey, String)>,
}

impl KeyBindings {
    /// The entries, in order.
    pub closed spec fn view(&self) -> Seq<(ParsedKey, Seq<char>)> {
        Seq::new(self.entries@.len(), |i: int| (self.entries@[i].0, self.entries@[i].1@))
    }

    /// An empty table.
    pub fn new() -> (b: KeyBindings)
        ensures
            b.view() == Seq::<(ParsedKey, Seq<char>)>::empty(),
    {
        let b = KeyBindings { entries: Vec::new() };
        assert(b.view() =~= Seq::<(ParsedKey, Seq<char>)>::empty());
        b
    }

    /// Number of bound keys.
    pub fn len(&self) -> (n: usize)
        ensures
            n == self.view().len(),
    {
        self.entries.len()
    }

    /// Bind `key` to `action`, replacing an earlier action for it.
    pub fn insert(&mut self, key: ParsedKey, action: String)
        ensures
            final(self).view() == assoc_insert(old(self).view(), key, action@),
    {
        let ghost b = self.view();
        let mut i: usize = 0;
        while i < self.entries.len()
            invariant
                i <= self.entries@.len(),
                b == self.view(),
                b == old(self).view(),
                forall|j: int| 0 <= j < i ==> b[j].0 != key,
            decreases self.entries@.len() - i,
        {
            if self.entries[i].0 == key {
                proof {
                    lemma_key_pos(b, key, i as int);
                }
                self.entries.set(i, (key, action));
                assert(self.view() =~= b.update(i as int, (key, action@)));
                return ;
            }
            i = i + 1;
        }
        proof {
            lemma_key_pos(b, key, i as int);
        }
        self.entries.push((key, action));
        assert(self.view() =~= b.push((key, action@)));
    }

    /// The action bound to `key`.
    pub fn get(&self, key: &ParsedKey) -> (r: Option<&str>)
        ensures
            key_pos(self.view(), *key) < self.view().len() ==> (r matches Some(a) && a@ == self.view()[key_pos(
                self.view(),
                *key,
            )].1),
            key_pos(self.view(), *key) >= self.view().len() ==> r is None,
    {
        let ghost b = self.view();
        let mut i: usize = 0;
        while i < self.entries.len()
            invariant
                i <= self.entries@.len(),
                b == self.view(),
                forall|j: int| 0 <= j < i ==> b[j].0 != *key,
            decreases self.entries@.len() - i,
        {
            if self.entries[i].0 == *key {
                proof {
                    lemma_key_pos(b, *key, i as int);
                }
                return Some(self.entries[i].1.as_str());
            }
            i = i + 1;
        }
        proof {
            lemma_key_pos(b, *key, i as int);
        }
        None
    }

    /// The action of the first key matching an event's key and modifiers.
    pub fn lookup(&self, code: KeyCode, modifiers: KeyModifiers) -> (r: Option<&str>)
        ensures
            first_match(self.view(), code, modifiers) < self.view().len() ==> (r matches Some(a) && a@
                == self.view()[first_match(self.view(), code, modifiers)].1),
            first_match(self.view(), code, modifiers) >= self.view().len() ==> r is None,
    {
        let ghost b = self.view();
        let mut i: usize = 0;
        while i < self.entries.len()
            invariant
                i <= self.entries@.len(),
                b == self.view(),
                forall|j: int| 0 <= j < i ==> !key_matches(#[trigger] b[j].0, code, modifiers),
            decreases self.entries@.len() - i,
        {
            if self.entries[i].0.matches(code, modifiers) {
                proof {
                    lemma_first_match(b, code, modifiers, i as int);
                }
                return Some(self.entries[i].1.as_str());
            }
            i = i + 1;
        }
        proof {
            lemma_first_match(b, code, modifiers, i as int);
        }
        None
    }
}

/// Bind the key `key_str` names to `action`; a key that does not parse is
/// skipped.
pub fn add_binding(bindings: &mut KeyBindings, key_str: &str, action: &str)
    ensures
        final(bindings).view() == match parse_key(key_str@) {
            Ok(k) => assoc_insert(old(bindings).view(), k, action@),
            Err(_) => old(bindings).view(),
        },
{
    match ParsedKey::parse(key_str) {
        Ok(key) => {
            bindings.insert(key, String::from_str(action));
        },
        Err(_) => {},
    }
}

/// Build a table from (key specification, action) pairs in order.
fn build_bindings(pairs: &Vec<(String, &'static str)>) -> (b: KeyBindings)
    ensures
        b.view() == bindings_from(Seq::new(pairs@.len(), |i: int| (pairs@[i].0@, pairs@[i].1@))),
{
    let ghost ps = Seq::new(pairs@.len(), |i: int| (pairs@[i].0@, pairs@[i].1@));
    let mut b = KeyBindings::new();
    let mut i: usize = 0;
    assert(ps.take(0) =~= Seq::<(Seq<char>, Seq<char>)>::empty());
    while i < pairs.len()
        invariant
            i <= pairs@.len(),
            ps == Seq::new(pairs@.len(), |i: int| (pairs@[i].0@, pairs@[i].1@)),
            b.view() == bindings_from(ps.take(i as int)),
        decreases pairs@.len() - i,
    {
        add_binding(&mut b, pairs[i].0.as_str(), pairs[i].1);
        proof {
            assert(ps.take(i + 1).drop_last() =~= ps.take(i as int));
            assert(ps.take(i + 1).last() == ps[i as int]);
        }
        i = i + 1;
    }
    assert(ps.take(i as int) =~= ps);
    b
}

/// The prefix-mode (key specification, action) pairs of a configuration.
pub open spec fn command_pairs(c: Config) -> Seq<(Seq<char>, Seq<char>)> {
    seq![
        (c.keybindings.pane.split_horizontal@, "split_horizontal"@),
        (c.keybindings.pane.split_vertical@, "split_vertical"@),
        (c.keybindings.pane.close@, "close_pane"@),
        (c.keybindings.pane.navigate_up@, "navigate_up"@),
        (c.keybindings.pane.navigate_down@, "navigate_down"@),
        (c.keybindings.pane.navigate_left@, "navigate_left"@),
        (c.keybindings.pane.navigate_right@, "navigate_right"@),
        (c.keybindings.pane.navigate_up_arrow@, "navigate_up"@),
        (c.keybindings.pane.navigate_down_arrow@, "navigate_down"@),
        (c.keybindings.pane.navigate_left_arrow@, "navigate_left"@),
        (c.keybindings.pane.navigate_right_arrow@, "navigate_right"@),
        (c.keybindings.window.new@, "new_window"@),
        (c.keybindings.window.close@, "close_window"@),
        (c.keybindings.window.next@, "next_window"@),
        (c.keybindings.window.previous@, "prev_window"@),
        (c.keybindings.window.previous_alt@, "prev_window"@),
        (c.keybindings.window.select_1@, "select_window_1"@),
        (c.keybindings.window.select_2@, "select_window_2"@),
        (c.keybindings.window.select_3@, "select_window_3"@),
        (c.keybindings.window.select_4@, "select_window_4"@),
        (c.keybindings.window.select_5@, "select_window_5"@),
        (c.keybindings.window.select_6@, "select_window_6"@),
        (c.keybindings.window.select_7@, "select_window_7"@),
        (c.keybindings.window.select_8@, "select_window_8"@),
        (c.keybindings.window.select_9@, "select_window_9"@),
        (c.keybindings.window.select_10@, "select_window_10"@),
        (c.keybindings.app.quit@, "quit"@),
        (c.keybindings.app.send_prefix@, "send_prefix"@),
    ]
}

/// The direct (key specification, action) pairs of a configuration.
pub open spec fn direct_pairs(c: Config) -> Seq<(Seq<char>, Seq<char>)> {
    seq![
        (c.keybindings.direct.scroll_up@, "scroll_up"@),
        (c.keybindings.direct.scroll_down@, "scroll_down"@),
        (c.keybindings.direct.paste@, "paste"@),
        (c.keybindings.direct.paste_alt@, "paste"@),
    ]
}

impl Config {
    /// The table of prefix-mode keys: pane, window and application actions.
    pub fn build_command_bindings(&self) -> (b: KeyBindings)
        ensures
            b.view() == bindings_from(command_pairs(*self)),
    {
        let mut v: Vec<(String, &'static str)> = Vec::new();
        v.push((self.keybindings.pane.split_horizontal.clone(), "split_horizontal"));
        v.push((self.keybindings.pane.split_vertical.clone(), "split_vertical"));
        v.push((self.keybindings.pane.close.clone(), "close_pane"));
        v.push((self.keybindings.pane.navigate_up.clone(), "navigate_up"));
        v.push((self.keybindings.pane.navigate_down.clone(), "navigate_down"));
        v.push((self.keybindings.pane.navigate_left.clone(), "navigate_left"));
        v.push((self.keybindings.pane.navigate_right.clone(), "navigate_right"));
        v.push((self.keybindings.pane.navigate_up_arrow.clone(), "navigate_up"));
        v.push((self.keybindings.pane.navigate_down_arrow.clone(), "navigate_down"));
        v.push((self.keybindings.pane.navigate_left_arrow.clone(), "navigate_left"));
        v.push((self.keybindings.pane.navigate_right_arrow.clone(), "navigate_right"));
        v.push((self.keybindings.window.new.clone(), "new_window"));
        v.push((self.keybindings.window.close.clone(), "close_window"));
        v.push((self.keybindings.window.next.clone(), "next_window"));
        v.push((self.keybindings.window.previous.clone(), "prev_window"));
        v.push((self.keybindings.window.previous_alt.clone(), "prev_window"));
        v.push((self.keybindings.window.select_1.clone(), "select_window_1"));
        v.push((self.keybindings.window.select_2.clone(), "select_window_2"));
        v.push((self.keybindings.window.select_3.clone(), "select_window_3"));
        v.push((self.keybindings.window.select_4.clone(), "select_window_4"));
        v.push((self.keybindings.window.select_5.clone(), "select_window_5"));
        v.push((self.keybindings.window.select_6.clone(), "select_window_6"));
        v.push((self.keybindings.window.select_7.clone(), "select_window_7"));
        v.push((self.keybindings.window.select_8.clone(), "select_window_8"));
        v.push((self.keybindings.window.select_9.clone(), "select_window_9"));
        v.push((self.keybindings.window.select_10.clone(), "select_window_10"));
        v.push((self.keybindings.app.quit.clone(), "quit"));
        v.push((self.keybindings.app.send_prefix.clone(), "send_prefix"));
        let b = build_bindings(&v);
        assert(Seq::new(v@.len(), |i: int| (v@[i].0@, v@[i].1@)) =~= command_pairs(*self));
        b
    }

    /// The table of direct keys (no prefix needed).
    pub fn build_direct_bindings(&self) -> (b: KeyBindings)
        ensures
            b.view() == bindings_from(direct_pairs(*self)),
    {
        let mut v: Vec<(String, &'static str)> = Vec::new();
        v.push((self.keybindings.direct.scroll_up.clone(), "scroll_up"));
        v.push((self.keybindings.direct.scroll_down.clone(), "scroll_down"));
        v.push((self.keybindings.direct.paste.clone(), "paste"));
        v.push((self.keybindings.direct.paste_alt.clone(), "paste"));
        let b = build_bindings(&v);
        assert(Seq::new(v@.len(), |i: int| (v@[i].0@, v@[i].1@)) =~= direct_pairs(*self));
        b
    }

    /// Parse the prefix key.
    pub fn parse_prefix(&self) -> (r: Result<ParsedKey, ConfigError>)
        ensures
            parse_key(self.prefix.key@) matches Ok(k) ==> r == Ok::<ParsedKey, ConfigError>(k),
            parse_key(self.prefix.key@) matches Err(e) ==> (r matches Err(ConfigError::InvalidKey(m)) && m@ == e),
    {
        ParsedKey::parse(self.prefix.key.as_str())
    }

    /// The default configuration file, with every option documented.
    pub fn default_toml() -> (s: &'static str)
        ensures
            s@ == crate::config::default_config::DEFAULT_CONFIG@,
    {
        crate::config::default_config::DEFAULT_CONFIG
    }
}

/// Whether `s` is `~` or starts with `~/`, the forms tilde expansion handles.
pub open spec fn tilde_form(s: Seq<char>) -> bool {
    s.len() > 0 && s[0] == '~' && (s.len() == 1 || s[1] == '/')
}

/// `shellexpand::tilde`: replaces a leading `~` (alone or before `/`) by the
/// home directory when one is known; any other text comes back unchanged.
/// The home directory depends on the environment, so what it is is not
/// stated; only that the text after the `~` is kept.
#[verifier::external_body]
fn expand_tilde(s: &str) -> (r: String)
    ensures
        !tilde_form(s@) ==> r@ == s@,
        tilde_form(s@) ==> r@ == s@ || (r@.len() >= s@.len() - 1 && r@.skip(r@.len() - (s@.len() - 1)) == s@.skip(1)),
{
    shellexpand::tilde(s).into_owned()
}

/// `dirs::state_dir`: the user's state directory, if the platform has one;
/// it depends on the environment, so nothing is promised of it.
#[verifier::external_body]
fn state_dir() -> (r: Option<String>) {
    dirs::state_dir().map(|p| p.to_string_lossy().into_owned())
}

/// `dirs::home_dir`: the user's home directory, if known; it depends on the
/// environment, so nothing is promised of it.
#[verifier::external_body]
fn home_dir() -> (r: Option<String>) {
    dirs::home_dir().map(|p| p.to_string_lossy().into_owned())
}

/// The default log directory given the state and home directories: `clux`
/// under the state directory, else `.local/state/clux` under the home
/// directory.
pub fn log_dir_from(state: Option<String>, home: Option<String>) -> (r: Option<String>)
    ensures
        state matches Some(s) ==> (r matches Some(p) && p@ == path_join(s@, "clux"@)),
        state is None ==> (home matches Some(h) ==> (r matches Some(p) && p@ == path_join(
            path_join(path_join(h@, ".local"@), "state"@),
            "clux"@,
        ))),
        state is None && home is None ==> r is None,
{
    match state {
        Some(s) => Some(join_path(s.as_str(), "clux")),
        None => match home {
            Some(h) => {
                let a = join_path(h.as_str(), ".local");
                let b = join_path(a.as_str(), "state");
                Some(join_path(b.as_str(), "clux"))
            },
            None => None,
        },
    }
}

impl crate::config::sections::ServerLoggingConfig {
    /// The log directory to use: none when explicitly disabled (empty), the
    /// configured one with `~` expanded (the home directory in its place, the
    /// rest kept), or the default.
    pub fn effective_log_dir(&self) -> (r: Option<String>)
        ensures
            self.log_dir matches Some(d) ==> (d@.len() == 0 ==> r is None),
            self.log_dir matches Some(d) ==> (d@.len() > 0 ==> (r matches Some(p) && (!tilde_form(d@) ==> p@ == d@))),
            self.log_dir matches Some(d) ==> (d@.len() > 0 && tilde_form(d@) ==> (r matches Some(p) && (p@ == d@ || (
                p@.len() >= d@.len() - 1 && p@.skip(p@.len() - (d@.len() - 1)) == d@.skip(1))))),
            self.log_dir is None ==> (r matches Some(p) ==> exists|d: Seq<char>| p@ == #[trigger] path_join(d, "clux"@)),
    {
        match &self.log_dir {
            Some(dir) => {
                if dir.unicode_len() == 0 {
                    None
                } else {
                    Some(expand_tilde(dir.as_str()))
                }
            },
            None => Self::default_log_dir(),
        }
    }

    /// The default log directory: `clux` under the state directory, else
    /// `.local/state/clux` under the home directory.
    pub fn default_log_dir() -> (r: Option<String>)
        ensures
            r matches Some(p) ==> exists|d: Seq<char>| p@ == #[trigger] path_join(d, "clux"@),
    {
        let state = state_dir();
        let home = if state.is_none() {
            home_dir()
        } else {
            None
        };
        log_dir_from(state, home)
    }
}

proof fn lemma_key_pos_bounds(b: Seq<(ParsedKey, Seq<char>)>, k: ParsedKey)
    ensures
        0 <= key_pos(b, k) <= b.len(),
        forall|j: int| 0 <= j < key_pos(b, k) ==> b[j].0 != k,
        key_pos(b, k) < b.len() ==> b[key_pos(b, k)].0 == k,
    decreases b.len(),
{
    if b.len() > 0 && b[0].0 != k {
        lemma_key_pos_bounds(b.drop_first(), k);
        assert forall|j: int| 0 <= j < key_pos(b, k) implies b[j].0 != k by {
            if j > 0 {
                assert(b[j] == b.drop_first()[j - 1]);
            }
        }
        if key_pos(b, k) < b.len() {
            assert(b[key_pos(b, k)] == b.drop_first()[key_pos(b, k) - 1]);
        }
    }
}

/// A key bound last reads back the action it was bound to, and binding it
/// leaves every other key bound (or unbound) as it was.
pub proof fn law_binding_reads_back(
    b: Seq<(ParsedKey, Seq<char>)>,
    k: ParsedKey,
    v: Seq<char>,
    other: ParsedKey,
)
    ensures
        key_pos(assoc_insert(b, k, v), k) < assoc_insert(b, k, v).len(),
        assoc_insert(b, k, v)[key_pos(assoc_insert(b, k, v), k)].1 == v,
        other != k ==> (key_pos(assoc_insert(b, k, v), other) < assoc_insert(b, k, v).len()) == (key_pos(
            b,
            other,
        ) < b.len()),
        other != k && key_pos(b, other) < b.len() ==> assoc_insert(b, k, v)[key_pos(
            assoc_insert(b, k, v),
            other,
        )].1 == b[key_pos(b, other)].1,
{
    let a = assoc_insert(b, k, v);
    let i = key_pos(b, k);
    lemma_key_pos_bounds(b, k);
    lemma_key_pos_bounds(b, other);
    let p = key_pos(b, other);
    if i < b.len() {
        assert(a == b.update(i, (k, v)));
        lemma_key_pos(a, k, i);
        if other != k {
            if p < b.len() {
                assert(p != i);
                assert forall|j: int| 0 <= j < p implies a[j].0 != other by {
                    if j != i {
                        assert(a[j] == b[j]);
                    }
                }
                lemma_key_pos(a, other, p);
            } else {
                assert forall|j: int| 0 <= j < a.len() implies a[j].0 != other by {
                    if j != i {
                        assert(a[j] == b[j]);
                    }
                }
                lemma_key_pos(a, other, a.len() as int);
            }
        }
    } else {
        assert(a == b.push((k, v)));
        assert forall|j: int| 0 <= j < b.len() implies a[j].0 != k by {
            assert(a[j] == b[j]);
        }
        lemma_key_pos(a, k, b.len() as int);
        if other != k {
            if p < b.len() {
                assert forall|j: int| 0 <= j < p implies a[j].0 != other by {
                    assert(a[j] == b[j]);
                }
                assert(a[p] == b[p]);
                lemma_key_pos(a, other, p);
            } else {
                assert forall|j: int| 0 <= j < a.len() implies a[j].0 != other by {
                    if j < b.len() {
                        assert(a[j] == b[j]);
                    }
                }
                lemma_key_pos(a, other, a.len() as int);
            }
        }
    }
}

} // verus!

