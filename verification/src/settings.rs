//! The settings panel: every setting and key of the dashboard, changed in place.
//!
//! Reading and writing the file is not done here. What belongs to the running
//! dashboard is: taking the file when it has changed, and turning a row and a
//! key into one entry written.

use vstd::prelude::*;

use crate::app::{App, Effect};
use crate::keyboard::KeyCode;
use crate::outside::{toml_flag_of, toml_text, toml_text_of};
use crate::text::{cat, same, trim, trimmed, unquote, unquoted};

verus! {

/// A setting at the value it has now.
pub struct Setting {
    pub name: String,
    /// The value, as the file writes it.
    pub value: String,
    /// Whether the file set it.
    pub set: bool,
    pub what: String,
}

/// A key of the dashboard.
pub struct Binding {
    pub action: String,
    pub default: String,
    pub what: String,
    /// The key it is on now.
    pub key: String,
}

/// Everything that can be set.
pub struct Settings {
    pub entries: Vec<Setting>,
    pub bindings: Vec<Binding>,
    /// What the file says that could not be taken.
    pub problems: Vec<String>,
}

/// The keys in force, each with what it does.
pub struct Keymap {
    pub keys: Vec<(String, String)>,
}

/// The settings as the dashboard has them, and the panel that changes them.
pub struct Config {
    pub file: Option<String>,
    /// When the file was changed last, as far as it was read.
    pub stamp: u64,
    pub settings: Settings,
    pub keymap: Keymap,
    pub cursor: usize,
    /// Whether the panel waits for a key.
    pub capture: bool,
    /// What is being typed.
    pub input: Option<String>,
    pub scroll: u16,
    /// Whether the bell is on.
    pub notify: bool,
}

impl Config {
    /// Whether nothing has been read or asked for.
    pub open spec fn unread(&self) -> bool {
        &&& self.settings.entries@.len() == 0
        &&& self.settings.bindings@.len() == 0
        &&& self.settings.problems@.len() == 0
        &&& self.keymap.keys@.len() == 0
        &&& *self == (Config {
            file: None,
            stamp: 0,
            settings: self.settings,
            keymap: self.keymap,
            cursor: 0,
            capture: false,
            input: None,
            scroll: 0,
            notify: false,
        })
    }

    /// Nothing read, and no file to read from.
    pub fn new() -> (r: Config)
        ensures
            r.unread(),
    {
        Config {
            file: None,
            stamp: 0,
            settings: Settings { entries: Vec::new(), bindings: Vec::new(), problems: Vec::new() },
            keymap: Keymap { keys: Vec::new() },
            cursor: 0,
            capture: false,
            input: None,
            scroll: 0,
            notify: false,
        }
    }
}

/// What an entry of the file is to hold.
pub enum SettingValue {
    Flag(bool),
    Text(String),
    /// A number, as the file writes it.
    Number(String),
}

/// An entry to be written, or taken out.
pub struct SettingWrite {
    pub table: String,
    pub name: String,
    pub value: Option<SettingValue>,
    /// What the entry is said to hold then.
    pub said: String,
    /// What is said behind that.
    pub after: Option<String>,
}

/// A value as the file writes it.
pub open spec fn value_text(value: SettingValue) -> Seq<char> {
    trimmed(
        match value {
            SettingValue::Flag(true) => "true"@,
            SettingValue::Flag(false) => "false"@,
            SettingValue::Text(t) => toml_text(t@),
            SettingValue::Number(n) => n@,
        },
    )
}

/// What an entry is said to hold.
pub open spec fn entry_words(name: Seq<char>, value: Option<SettingValue>) -> Seq<char> {
    match value {
        Some(v) => name + " = "@ + value_text(v),
        None => name + " back to its default"@,
    }
}

/// The theme behind `theme`, and the first where it is none of them.
pub open spec fn next_theme(theme: Seq<char>) -> Seq<char> {
    if theme == "auto"@ {
        "light"@
    } else if theme == "light"@ {
        "dark"@
    } else if theme == "dark"@ {
        "mono"@
    } else {
        "auto"@
    }
}

/// The place of the first binding but `mine` that is on the key `spec`.
pub open spec fn taken_by(bindings: Seq<Binding>, mine: Seq<char>, spec: Seq<char>) -> Option<Seq<char>>
    decreases bindings.len(),
{
    if bindings.len() == 0 {
        None
    } else if bindings[0].action@ != mine && bindings[0].key@ == spec {
        Some(bindings[0].action@)
    } else {
        taken_by(bindings.skip(1), mine, spec)
    }
}

/// What is said where a key was taken from another action.
pub open spec fn taken_words(action: Seq<char>, spec: Seq<char>, other: Seq<char>) -> Seq<char> {
    action + " = "@ + spec + " — that was "@ + other + "'s key, so rebind "@ + other + " too"@
}

/// Whether two optional texts say the same.
pub open spec fn says(a: Option<String>, b: Option<Seq<char>>) -> bool {
    match (a, b) {
        (Some(x), Some(y)) => x@ == y,
        (None, None) => true,
        _ => false,
    }
}

/// Whether two values are the same.
pub open spec fn same_value(a: Option<SettingValue>, b: Option<SettingValue>) -> bool {
    match (a, b) {
        (Some(SettingValue::Flag(x)), Some(SettingValue::Flag(y))) => x == y,
        (Some(SettingValue::Text(x)), Some(SettingValue::Text(y))) => x@ == y@,
        (Some(SettingValue::Number(x)), Some(SettingValue::Number(y))) => x@ == y@,
        (None, None) => true,
        _ => false,
    }
}

impl App {
    /// Whether the settings file, last changed at `stamp`, has to be read again.
    pub fn settings_stale(&self, stamp: u64) -> (r: bool)
        ensures
            r == (self.config.file is Some && (stamp != self.config.stamp || stamp == 0)),
    {
        self.config.file.is_some() && (stamp != self.config.stamp || stamp == 0)
    }

    /// Take the settings file as it was read, so that a key bound anew works at
    /// the next press.
    pub fn reload_settings(&mut self, stamp: u64, settings: Settings, keymap: Keymap, problems: Vec<String>)
        ensures
            if old(self).config.file is Some && (stamp != old(self).config.stamp || stamp == 0) {
                &&& *final(self) == (App {
                    config: Config {
                        stamp,
                        settings: final(self).config.settings,
                        keymap,
                        ..old(self).config
                    },
                    ..*old(self)
                })
                &&& final(self).config.settings.entries == settings.entries
                &&& final(self).config.settings.bindings == settings.bindings
                &&& final(self).config.settings.problems@ == settings.problems@ + problems@
            } else {
                *final(self) == *old(self)
            },
    {
        if !self.settings_stale(stamp) {
            return;
        }
        self.config.stamp = stamp;
        let mut settings = settings;
        let mut problems = problems;
        settings.problems.append(&mut problems);
        self.config.settings = settings;
        self.config.keymap = keymap;
    }

    /// What asking for an entry to be written makes of a state. Without a file
    /// nothing is written, and only what was to be said behind it is said.
    pub open spec fn writes(
        &self,
        table: Seq<char>,
        name: Seq<char>,
        value: Option<SettingValue>,
        behind: Option<Seq<char>>,
        after: App,
    ) -> bool {
        if self.config.file is None {
            match behind {
                Some(words) => self.said(words, after),
                None => after == *self,
            }
        } else {
            &&& after == (App { effects: after.effects, ..*self })
            &&& after.effects@.len() == self.effects@.len() + 1
            &&& after.effects@.drop_last() == self.effects@
            &&& after.effects@.last() matches Effect::WriteSetting(w)
            &&& w.table@ == table
            &&& w.name@ == name
            &&& same_value(w.value, value)
            &&& w.said@ == entry_words(name, value)
            &&& says(w.after, behind)
        }
    }

    fn write_setting(&mut self, table: &str, name: &str, value: Option<SettingValue>, behind: Option<String>)
        ensures
            old(self).writes(
                table@,
                name@,
                value,
                match behind {
                    Some(words) => Some(words@),
                    None => None,
                },
                *final(self),
            ),
    {
        if self.config.file.is_none() {
            match behind {
                Some(words) => {
                    self.set_status(words);
                },
                None => {},
            }
            return;
        }
        let said = match &value {
            Some(v) => {
                let raw = match v {
                    SettingValue::Flag(on) => toml_flag_of(*on),
                    SettingValue::Text(t) => toml_text_of(t.as_str()),
                    SettingValue::Number(n) => n.clone(),
                };
                let mut s = cat(name, " = ");
                s.append(trim(raw.as_str()).as_str());
                s
            },
            None => cat(name, " back to its default"),
        };
        self.ask(
            Effect::WriteSetting(
                SettingWrite { table: table.to_owned(), name: name.to_owned(), value, said, after: behind },
            ),
        );
        assert(self.effects@.drop_last() =~= old(self).effects@);
    }

    /// Take the answer to an entry being written: say what changed, or why it
    /// could not. The file is read again after that whatever its stamp is, since
    /// two writes inside one millisecond share one.
    pub fn setting_written(&mut self, write: &SettingWrite, answer: Result<(), String>)
        ensures
            ({
                let forced = App { config: Config { stamp: 0, ..old(self).config }, ..*old(self) };
                let words = match answer {
                    Ok(_) => "Saved "@ + write.said@,
                    Err(why) => "Could not save: "@ + why@,
                };
                match write.after {
                    None => forced.said(words, *final(self)),
                    Some(more) => forced.said_twice(words, more@, *final(self)),
                }
            }),
    {
        self.config.stamp = 0;
        let s = match answer {
            Ok(_) => cat("Saved ", write.said.as_str()),
            Err(why) => cat("Could not save: ", why.as_str()),
        };
        let ghost forced = *self;
        let ghost words = s@;
        self.set_status(s);
        let ghost mid = *self;
        match &write.after {
            None => {},
            Some(more) => {
                self.set_status(more.clone());
                assert(forced.said(words, mid));
            },
        }
    }

    /// What turning the bell on or off makes of a state: the entry is written,
    /// and the running dashboard agrees with it without a restart.
    pub open spec fn bell_turned(&self, name: Seq<char>, on: bool, after: App) -> bool {
        exists|mid: App|
            {
                &&& #[trigger] self.writes("settings"@, name, Some(SettingValue::Flag(on)), None, mid)
                &&& after.effects@ == mid.effects@.push(Effect::SavePrefs)
                &&& after == (App { effects: after.effects, config: Config { notify: on, ..mid.config }, ..mid })
            }
    }

    /// What saying one thing and then another makes of a state.
    pub open spec fn said_twice(&self, first: Seq<char>, second: Seq<char>, after: App) -> bool {
        exists|mid: App| #[trigger] self.said(first, mid) && mid.said(second, after)
    }

    /// Enter on the panel's row: a toggle flips, the theme turns to the next one,
    /// a key waits for its new one, and anything else opens a field.
    pub fn settings_activate(&mut self)
        ensures
            ({
                let n = old(self).config.settings.entries@.len();
                let at = old(self).config.cursor as int;
                if at >= n {
                    if at < n + old(self).config.settings.bindings@.len() {
                        *final(self) == (App { config: Config { capture: true, ..old(self).config }, ..*old(self) })
                    } else {
                        *final(self) == *old(self)
                    }
                } else {
                    let name = old(self).config.settings.entries@[at].name@;
                    let value = old(self).config.settings.entries@[at].value@;
                    let on = value != "true"@;
                    if name == "notify"@ && old(self).config.notify != on {
                        old(self).bell_turned(name, on, *final(self))
                    } else if name == "notify"@ || name == "auto_update"@ {
                        old(self).writes("settings"@, name, Some(SettingValue::Flag(on)), None, *final(self))
                    } else if name == "theme"@ {
                        exists|next: String|
                            next@ == next_theme(unquoted(value)) && #[trigger] old(self).writes(
                                "settings"@,
                                name,
                                Some(SettingValue::Text(next)),
                                None,
                                *final(self),
                            )
                    } else {
                        &&& final(self).config.input is Some
                        &&& (final(self).config.input->0)@ == unquoted(value)
                        &&& *final(self) == (App {
                            config: Config { input: final(self).config.input, ..old(self).config },
                            ..*old(self)
                        })
                    }
                }
            }),
    {
        let at: usize = self.config.cursor;
        let n: usize = self.config.settings.entries.len();
        if at >= n {
            if at - n < self.config.settings.bindings.len() {
                self.config.capture = true;
            }
            return;
        }
        let name = self.config.settings.entries[at].name.clone();
        let value = self.config.settings.entries[at].value.clone();
        let notify = same(name.as_str(), "notify");
        if notify || same(name.as_str(), "auto_update") {
            let on = !same(value.as_str(), "true");
            self.write_setting("settings", name.as_str(), Some(SettingValue::Flag(on)), None);
            if notify && self.config.notify != on {
                let ghost mid = *self;
                self.config.notify = on;
                self.save_prefs();
                assert(old(self).writes("settings"@, name@, Some(SettingValue::Flag(on)), None, mid));
                assert(old(self).bell_turned(name@, on, *self));
            }
        } else if same(name.as_str(), "theme") {
            let was = unquote(value.as_str());
            let next = if same(was.as_str(), "auto") {
                "light".to_owned()
            } else if same(was.as_str(), "light") {
                "dark".to_owned()
            } else if same(was.as_str(), "dark") {
                "mono".to_owned()
            } else {
                "auto".to_owned()
            };
            let ghost word = next;
            self.write_setting("settings", name.as_str(), Some(SettingValue::Text(next)), None);
            assert(old(self).writes("settings"@, name@, Some(SettingValue::Text(word)), None, *self));
        } else {
            self.config.input = Some(unquote(value.as_str()));
        }
    }

    /// Backspace on the panel's row: take its entry out of the file.
    pub fn settings_reset(&mut self)
        ensures
            ({
                let n = old(self).config.settings.entries@.len();
                let at = old(self).config.cursor as int;
                if at < n {
                    old(self).writes("settings"@, old(self).config.settings.entries@[at].name@, None, None, *final(self))
                } else if at < n + old(self).config.settings.bindings@.len() {
                    old(self).writes("keys"@, old(self).config.settings.bindings@[at - n].action@, None, None, *final(self))
                } else {
                    *final(self) == *old(self)
                }
            }),
    {
        let at: usize = self.config.cursor;
        let n: usize = self.config.settings.entries.len();
        if at < n {
            let name = self.config.settings.entries[at].name.clone();
            self.write_setting("settings", name.as_str(), None, None);
        } else if at - n < self.config.settings.bindings.len() {
            let action = self.config.settings.bindings[at - n].action.clone();
            self.write_setting("keys", action.as_str(), None, None);
        }
    }

    /// The key pressed while the panel was waiting for one, bound to the cursor's
    /// action. `spec` is how the file writes the key, where it can.
    ///
    /// Esc cancels rather than binding, since it is the only way out of the wait.
    /// A key another action is on is still taken, but the status line says which
    /// action just lost it. The default is written as no entry at all, so that
    /// the file only ever holds what someone changed.
    pub fn settings_capture_key(&mut self, code: KeyCode, spec: Option<String>)
        ensures
            ({
                let done = App { config: Config { capture: false, ..old(self).config }, ..*old(self) };
                let n = old(self).config.settings.entries@.len();
                let at = old(self).config.cursor - n;
                if code == KeyCode::Esc || at < 0 || at >= old(self).config.settings.bindings@.len() {
                    *final(self) == done
                } else {
                    let action = old(self).config.settings.bindings@[at].action@;
                    match spec {
                        None => done.said("That key cannot be written in the config file"@, *final(self)),
                        Some(key) => done.writes(
                            "keys"@,
                            action,
                            if key@ == old(self).config.settings.bindings@[at].default@ {
                                None
                            } else {
                                Some(SettingValue::Text(key))
                            },
                            match taken_by(old(self).config.settings.bindings@, action, key@) {
                                Some(other) => Some(taken_words(action, key@, other)),
                                None => None,
                            },
                            *final(self),
                        ),
                    }
                }
            }),
    {
        self.config.capture = false;
        if code == KeyCode::Esc {
            return;
        }
        let n: usize = self.config.settings.entries.len();
        if self.config.cursor < n || self.config.cursor - n >= self.config.settings.bindings.len() {
            return;
        }
        let at: usize = self.config.cursor - n;
        let action = self.config.settings.bindings[at].action.clone();
        let key = match spec {
            Some(k) => k,
            None => {
                self.set_status("That key cannot be written in the config file".to_owned());
                return;
            },
        };
        let behind = match holder_of(&self.config.settings.bindings, action.as_str(), key.as_str()) {
            Some(other) => {
                let mut s = cat(action.as_str(), " = ");
                s.append(key.as_str());
                s.append(" — that was ");
                s.append(other.as_str());
                s.append("'s key, so rebind ");
                s.append(other.as_str());
                s.append(" too");
                Some(s)
            },
            None => None,
        };
        let value = if same(key.as_str(), self.config.settings.bindings[at].default.as_str()) {
            None
        } else {
            Some(SettingValue::Text(key))
        };
        self.write_setting("keys", action.as_str(), value, behind);
    }

    /// Enter in a setting's field: an empty one resets it, anything else is
    /// checked the way the file's reader would check it. `percent` is the
    /// percentage from 1 to 100 that the field's text reads as, as the file
    /// writes it.
    pub fn settings_commit_input(&mut self, percent: Option<String>)
        ensures
            ({
                let done = App { config: Config { input: None, ..old(self).config }, ..*old(self) };
                let at = old(self).config.cursor as int;
                if old(self).config.input is None || at >= old(self).config.settings.entries@.len() {
                    *final(self) == done
                } else {
                    let text = trimmed((old(self).config.input->0)@);
                    let name = old(self).config.settings.entries@[at].name@;
                    if text.len() == 0 {
                        done.writes("settings"@, name, None, None, *final(self))
                    } else if name == "compact_threshold"@ {
                        match percent {
                            Some(p) => done.writes(
                                "settings"@,
                                name,
                                Some(SettingValue::Number(p)),
                                None,
                                *final(self),
                            ),
                            None => done.said("compact_threshold is a percentage, 1 to 100"@, *final(self)),
                        }
                    } else {
                        exists|t: String|
                            t@ == text && #[trigger] done.writes(
                                "settings"@,
                                name,
                                Some(SettingValue::Text(t)),
                                None,
                                *final(self),
                            )
                    }
                }
            }),
    {
        let text = match self.config.input.take() {
            Some(t) => trim(t.as_str()),
            None => {
                return;
            },
        };
        let ghost done = *self;
        let at: usize = self.config.cursor;
        if at >= self.config.settings.entries.len() {
            return;
        }
        let name = self.config.settings.entries[at].name.clone();
        let empty = crate::text::count(text.as_str()) == 0;
        if empty {
            self.write_setting("settings", name.as_str(), None, None);
        } else if same(name.as_str(), "compact_threshold") {
            match percent {
                Some(p) => {
                    self.write_setting("settings", name.as_str(), Some(SettingValue::Number(p)), None);
                },
                None => {
                    self.set_status("compact_threshold is a percentage, 1 to 100".to_owned());
                },
            }
        } else {
            let ghost word = text;
            self.write_setting("settings", name.as_str(), Some(SettingValue::Text(text)), None);
            assert(done.writes("settings"@, name@, Some(SettingValue::Text(word)), None, *self));
        }
    }
}

fn holder_of(bindings: &Vec<Binding>, mine: &str, spec: &str) -> (r: Option<String>)
    ensures
        says(r, taken_by(bindings@, mine@, spec@)),
{
    let mut i: usize = 0;
    assert(bindings@.skip(0) =~= bindings@);
    while i < bindings.len()
        invariant
            i <= bindings@.len(),
            taken_by(bindings@, mine@, spec@) == taken_by(bindings@.skip(i as int), mine@, spec@),
        decreases bindings@.len() - i,
    {
        if !same(bindings[i].action.as_str(), mine) && same(bindings[i].key.as_str(), spec) {
            return Some(bindings[i].action.clone());
        }
        assert(bindings@.skip(i as int).skip(1) =~= bindings@.skip(i + 1));
        i += 1;
    }
    None
}

/// Turning the theme four times comes back to where it was.
pub proof fn the_themes_come_round()
    ensures
        next_theme(next_theme(next_theme(next_theme("auto"@)))) == "auto"@,
        next_theme(next_theme(next_theme(next_theme("light"@)))) == "light"@,
        next_theme(next_theme(next_theme(next_theme("dark"@)))) == "dark"@,
        next_theme(next_theme(next_theme(next_theme("mono"@)))) == "mono"@,
{
    reveal_strlit("auto");
    reveal_strlit("light");
    reveal_strlit("dark");
    reveal_strlit("mono");
    assert("auto"@[0] != "light"@[0]);
    assert("dark"@[0] != "light"@[0]);
    assert("dark"@[0] != "auto"@[0]);
    assert("mono"@[0] != "light"@[0]);
    assert("mono"@[0] != "dark"@[0]);
    assert("mono"@[0] != "auto"@[0]);
}

/// A key is taken by the first other action that is on it, and by none where no other
/// is.
pub proof fn a_key_is_taken_by_who_is_on_it(bindings: Seq<Binding>, mine: Seq<char>, spec: Seq<char>, k: int)
    requires
        0 <= k <= bindings.len(),
        forall|i: int| 0 <= i < k ==> (#[trigger] bindings[i]).action@ == mine || bindings[i].key@ != spec,
        k < bindings.len() ==> bindings[k].action@ != mine && bindings[k].key@ == spec,
    ensures
        k < bindings.len() ==> taken_by(bindings, mine, spec) == Some(bindings[k].action@),
        k == bindings.len() ==> taken_by(bindings, mine, spec) is None,
    decreases k,
{
    if k > 0 {
        assert(bindings[0].action@ == mine || bindings[0].key@ != spec);
        assert forall|i: int| 0 <= i < k - 1 implies (#[trigger] bindings.skip(1)[i]).action@ == mine || bindings.skip(1)[i].key@
            != spec by {
            assert(bindings.skip(1)[i] == bindings[i + 1]);
        }
        a_key_is_taken_by_who_is_on_it(bindings.skip(1), mine, spec, k - 1);
    }
}

/// What is said of an entry names it, and what it holds or that it is at its default.
pub proof fn an_entry_is_said_as_it_is(name: Seq<char>, n: String)
    requires
        n@.len() > 0,
        !crate::text::white(n@[0]),
        !crate::text::white(n@.last()),
    ensures
        entry_words(name, Some(SettingValue::Number(n))) == name + " = "@ + n@,
        entry_words(name, None) == name + " back to its default"@,
        entry_words(name, Some(SettingValue::Flag(true))) == name + " = "@ + "true"@,
        entry_words(name, Some(SettingValue::Flag(false))) == name + " = "@ + "false"@,
{
    let none = Seq::<char>::empty();
    crate::text::only_what_is_around_is_trimmed(none, n@, none);
    assert(none + n@ + none =~= n@);
    reveal_strlit("true");
    reveal_strlit("false");
    crate::text::only_what_is_around_is_trimmed(none, "true"@, none);
    assert(none + "true"@ + none =~= "true"@);
    crate::text::only_what_is_around_is_trimmed(none, "false"@, none);
    assert(none + "false"@ + none =~= "false"@);
}

} // verus!
