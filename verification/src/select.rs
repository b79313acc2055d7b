//! The cursor: what it points at, where it moves, and what the panels follow.
//!
//! The table's rows are not its sessions: a session can expand into subagent
//! rows. So the selection is an index into [`App::visible`] that has to survive a
//! resort, a refilter and a session disappearing. Everything that reads or
//! repairs that index is here, together with the bottom panels, which show
//! whatever the cursor is on.

use vstd::prelude::*;

use crate::app::{cursor_on, App, ColumnId, Effect, Row};
use crate::keys::KeySet;
use crate::model::{alike, copy_text, key_of, Provider, Session, Subagent, SubagentStatus};
use crate::panels::log::tab_count;
use crate::panels::TABS;
use crate::text::{between, after_prefix, begins, cat, chars_of, cut, join, joined, same, string_between, truncate};
use crate::wrap::{clamped, step, stepped, walk};

verus! {

/// Rows moved by PageUp and PageDown, and the most a half page moves.
pub const PAGE: usize = 10;

/// The place of the last `c` in `s`, or -1.
pub open spec fn last_place(s: Seq<char>, c: char) -> int
    decreases s.len(),
{
    if s.len() == 0 {
        -1
    } else if s.last() == c {
        s.len() - 1
    } else {
        last_place(s.drop_last(), c)
    }
}

proof fn last_place_range(s: Seq<char>, c: char)
    ensures
        -1 <= last_place(s, c) < s.len(),
    decreases s.len(),
{
    if s.len() > 0 && s.last() != c {
        last_place_range(s.drop_last(), c);
    }
}

fn find_last(v: &Vec<char>, c: char) -> (r: Option<usize>)
    ensures
        match r {
            Some(i) => i == last_place(v@, c) && i < v@.len(),
            None => last_place(v@, c) == -1,
        },
{
    let mut n: usize = v.len();
    assert(v@.take(n as int) =~= v@);
    while n > 0
        invariant
            n <= v@.len(),
            last_place(v@, c) == last_place(v@.take(n as int), c),
        decreases n,
    {
        assert(v@.take(n as int).drop_last() =~= v@.take(n - 1));
        if v[n - 1] == c {
            return Some(n - 1);
        }
        n -= 1;
    }
    None
}

/// The path of a file without its extension.
pub open spec fn bare_path(s: Seq<char>) -> Seq<char> {
    let dot = last_place(s, '.');
    let name = last_place(s, '/') + 1;
    if dot <= name || s.skip(name) == seq!['.', '.'] {
        s
    } else {
        s.take(dot)
    }
}

fn without_extension(path: &str) -> (r: String)
    ensures
        r@ == bare_path(path@),
{
    let v = chars_of(path);
    let n: usize = v.len();
    proof {
        last_place_range(path@, '.');
        last_place_range(path@, '/');
    }
    let dot: usize = match find_last(&v, '.') {
        Some(i) => i,
        None => {
            return path.to_owned();
        },
    };
    let name: usize = match find_last(&v, '/') {
        Some(i) => i + 1,
        None => 0,
    };
    let parent = n - name == 2 && v[name] == '.' && v[name + 1] == '.';
    assert(parent == (path@.skip(name as int) == seq!['.', '.'])) by {
        if parent {
            assert(path@.skip(name as int) =~= seq!['.', '.']);
        } else if path@.skip(name as int) == seq!['.', '.'] {
            assert(path@.skip(name as int).len() == 2);
            assert(path@.skip(name as int)[0] == v@[name as int]);
            assert(path@.skip(name as int)[1] == v@[name + 1]);
        }
    }
    if dot <= name || parent {
        return path.to_owned();
    }
    let r = string_between(&v, 0, dot);
    assert(r@ =~= path@.take(dot as int));
    r
}

/// Where a subagent of the session read from `path` keeps its transcript.
pub open spec fn subagent_path(path: Seq<char>, agent_id: Seq<char>) -> Seq<char> {
    bare_path(path) + "/subagents/"@ + agent_id + ".jsonl"@
}

/// The command that resumes a session, where its agent has one.
pub open spec fn resume_words(s: Session) -> Option<Seq<char>> {
    match s.provider {
        Provider::Claude => Some(s.agent@ + " --resume "@ + s.session_id@),
        Provider::Codex => Some("codex resume "@ + s.session_id@),
        Provider::OpenCode => Some("opencode --session "@ + s.session_id@),
        Provider::Pi => Some("pi --session "@ + s.session_id@),
        _ => None,
    }
}

/// The command that resumes a session, where its agent has one.
pub fn resume_command(s: &Session) -> (r: Option<String>)
    ensures
        match (r, resume_words(*s)) {
            (Some(a), Some(b)) => a@ == b,
            (None, None) => true,
            _ => false,
        },
{
    let id = s.session_id.as_str();
    match s.provider {
        Provider::Claude => Some(between(s.agent.as_str(), " --resume ", id)),
        Provider::Codex => Some(cat("codex resume ", id)),
        Provider::OpenCode => Some(cat("opencode --session ", id)),
        Provider::Pi => Some(cat("pi --session ", id)),
        _ => None,
    }
}

/// What is worth copying of a session while panel `tab` is on.
pub open spec fn copied(s: Session, tab: usize) -> Seq<char> {
    if tab == 0 && resume_words(s) is Some {
        resume_words(s)->0
    } else {
        match s.data_file {
            Some(p) => p@,
            None => s.session_id@,
        }
    }
}

/// Whether `r` is the session the panels describe for a subagent's row.
pub open spec fn is_stand_in(s: Session, sub: Subagent, stamp: Seq<char>, r: Session) -> bool {
    &&& r.provider == s.provider
    &&& r.agent == s.agent
    &&& r.session_id == sub.agent_id
    &&& r.surface == s.surface
    &&& r.type_label == s.type_label
    &&& r.model == sub.model
    &&& r.label_source == s.label_source
    &&& r.harness == s.harness
    &&& r.title == (if sub.description@.len() == 0 {
        None
    } else {
        Some(sub.description)
    })
    &&& r.started_at@ == (match sub.started_at {
        Some(t) => t@,
        None => Seq::empty(),
    })
    &&& match s.data_file {
        Some(p) => r.data_file is Some && r.data_file->0@ == subagent_path(p@, sub.agent_id@) && r.last_active@ == stamp,
        None => r.data_file is None && r.last_active@.len() == 0,
    }
    &&& r.owner is None && r.session_dir is None && r.remote is None && r.subagents@.len() == 0 && r.process is None
    &&& !r.inferred_running && r.context is None && r.total_cost is None && r.conflict is None && r.ultracode_at is None
    &&& r.cost_available && !r.cost_is_free && r.cpu == 0 && r.tool_count == 0 && r.tool_errors == 0
}

impl App {
    /// The session under the cursor.
    pub open spec fn session_at(&self) -> Option<Session> {
        if self.selected < self.visible@.len() && self.visible@[self.selected as int].owner() < self.sessions@.len() {
            Some(self.sessions@[self.visible@[self.selected as int].owner() as int])
        } else {
            None
        }
    }

    /// The highlighted session, if there is one.
    ///
    /// A refresh replaces the sessions before the rows are rebuilt, so between
    /// those two steps the indices can outrun the list. This is total there.
    pub fn selected_session(&self) -> (r: Option<&Session>)
        ensures
            match r {
                Some(s) => self.session_at() == Some(*s),
                None => self.session_at() is None,
            },
    {
        if self.selected >= self.visible.len() {
            return None;
        }
        let at: usize = self.visible[self.selected].session();
        if at < self.sessions.len() {
            Some(&self.sessions[at])
        } else {
            None
        }
    }

    /// The row under the cursor.
    pub open spec fn row_at(&self) -> Option<Row> {
        if self.selected < self.visible@.len() {
            Some(self.visible@[self.selected as int])
        } else {
            None
        }
    }

    /// The highlighted row, whatever kind it is.
    pub fn selected_row(&self) -> (r: Option<Row>)
        ensures
            r == self.row_at(),
    {
        if self.selected < self.visible.len() {
            Some(self.visible[self.selected])
        } else {
            None
        }
    }

    /// The subagent under the cursor.
    pub open spec fn subagent_at(&self) -> Option<Subagent> {
        match (self.row_at(), self.session_at()) {
            (Some(Row::Subagent { parent: _, index }), Some(s)) => if index < s.subagents@.len() {
                Some(s.subagents@[index as int])
            } else {
                None
            },
            _ => None,
        }
    }

    /// The highlighted subagent, when the cursor is on a child row.
    pub fn selected_subagent(&self) -> (r: Option<&Subagent>)
        ensures
            match r {
                Some(s) => self.subagent_at() == Some(*s),
                None => self.subagent_at() is None,
            },
    {
        match self.selected_row() {
            Some(Row::Subagent { parent, index }) => {
                if parent < self.sessions.len() && index < self.sessions[parent].subagents.len() {
                    Some(&self.sessions[parent].subagents[index])
                } else {
                    None
                }
            },
            _ => None,
        }
    }

    /// Whether the cursor is on a child row.
    ///
    /// The actions that ask this all address the operating system, and a
    /// subagent has no process, file or terminal of its own.
    pub fn on_subagent(&self) -> (r: bool)
        ensures
            r == (self.row_at() is Some && self.row_at()->0 is Subagent),
    {
        match self.selected_row() {
            Some(row) => row.is_subagent(),
            None => false,
        }
    }

    /// Whether a session is showing its subagents.
    pub fn is_expanded(&self, session: &Session) -> (r: bool)
        ensures
            r == self.expanded@.contains(key_of(*session)),
    {
        self.expanded.contains(session.key().as_str())
    }

    /// What showing or hiding the subagents of session `s` makes of the set of
    /// sessions that show theirs.
    pub open spec fn toggled(&self, s: Session) -> Set<Seq<char>> {
        if self.expanded@.contains(key_of(s)) {
            self.expanded@.remove(key_of(s))
        } else {
            self.expanded@.insert(key_of(s))
        }
    }

    /// Show or hide the selected session's subagents.
    ///
    /// Anchored on the owning session: from a child row the cursor lands on its
    /// parent, not on a line that no longer exists.
    pub fn toggle_expanded(&mut self)
        ensures
            match old(self).session_at() {
                None => *final(self) == *old(self),
                Some(s) => if s.subagents@.len() == 0 {
                    old(self).said("No subagents to show"@, *final(self))
                } else {
                    &&& final(self).expanded@ == old(self).toggled(s)
                    &&& final(self).rows_in_order()
                    &&& final(self).selected == cursor_on(
                        old(self).sessions@,
                        final(self).visible@,
                        if old(self).row_at()->0 is Subagent {
                            Some(key_of(s))
                        } else {
                            old(self).cursor_name()
                        },
                        old(self).selected as int,
                    )
                    &&& final(self).effects@ == old(self).effects@.push(Effect::SavePrefs)
                    &&& *final(self) == (App {
                        expanded: final(self).expanded,
                        visible: final(self).visible,
                        selected: final(self).selected,
                        effects: final(self).effects,
                        needs_redraw: true,
                        ..*old(self)
                    })
                },
            },
    {
        let row = match self.selected_row() {
            Some(row) => row,
            None => {
                return;
            },
        };
        let at: usize = row.session();
        if at >= self.sessions.len() {
            return;
        }
        if self.sessions[at].subagents.len() == 0 {
            self.set_status("No subagents to show".to_owned());
            return;
        }
        let key = self.sessions[at].key();
        let name = if row.is_subagent() {
            key.clone()
        } else {
            self.row_key(row)
        };
        if !self.expanded.remove(key.as_str()) {
            assert(self.expanded@ =~= old(self).expanded@);
            self.expanded.insert(key);
        }
        self.refilter_onto(Some(name));
        self.save_prefs();
    }

    /// Expand every session that has subagents, or collapse them all.
    ///
    /// Collapses when anything at all is open: with a mixture on screen, closing
    /// is the intent that a single key can satisfy unambiguously.
    pub fn toggle_expanded_all(&mut self)
        ensures
            final(self).expanded@ == (if old(self).expanded@ == Set::<Seq<char>>::empty() {
                Set::new(
                    |k: Seq<char>|
                        exists|i: int|
                            0 <= i < old(self).sessions@.len() && key_of(#[trigger] old(self).sessions@[i]) == k && old(
                                self,
                            ).sessions@[i].subagents@.len() > 0,
                )
            } else {
                Set::<Seq<char>>::empty()
            }),
            final(self).rows_in_order(),
            final(self).selected == cursor_on(
                old(self).sessions@,
                final(self).visible@,
                old(self).cursor_name(),
                old(self).selected as int,
            ),
            final(self).effects@ == old(self).effects@.push(Effect::SavePrefs),
            *final(self) == (App {
                expanded: final(self).expanded,
                visible: final(self).visible,
                selected: final(self).selected,
                effects: final(self).effects,
                needs_redraw: true,
                ..*old(self)
            }),
    {
        let ghost sessions = self.sessions@;
        if self.expanded.is_empty() {
            let mut open = KeySet::new();
            let mut i: usize = 0;
            while i < self.sessions.len()
                invariant
                    i <= self.sessions@.len(),
                    sessions == self.sessions@,
                    forall|k: Seq<char>| #[trigger] open@.contains(k) <==> exists|j: int|
                        0 <= j < i && key_of(#[trigger] sessions[j]) == k && sessions[j].subagents@.len() > 0,
                decreases self.sessions@.len() - i,
            {
                let ghost was = open@;
                if self.sessions[i].subagents.len() > 0 {
                    open.insert(self.sessions[i].key());
                    assert(open@.contains(key_of(sessions[i as int])));
                }
                assert forall|k: Seq<char>| #[trigger] open@.contains(k) <==> exists|j: int|
                    0 <= j < i + 1 && key_of(#[trigger] sessions[j]) == k && sessions[j].subagents@.len() > 0 by {
                    if open@.contains(k) && !was.contains(k) {
                        assert(key_of(sessions[i as int]) == k);
                    }
                }
                i += 1;
            }
            self.expanded = open;
            assert(self.expanded@ =~= Set::new(
                |k: Seq<char>|
                    exists|i: int|
                        0 <= i < sessions.len() && key_of(#[trigger] sessions[i]) == k && sessions[i].subagents@.len()
                            > 0,
            ));
        } else {
            self.expanded.clear();
        }
        self.refilter();
        self.save_prefs();
    }

    /// The file a subagent's row is read from, whose age tells whether it grew.
    pub fn panel_file(&self, row: Row) -> (r: Option<String>)
        ensures
            ({
                let found = row matches Row::Subagent { parent, index } && parent < self.sessions@.len() && index
                    < self.sessions@[parent as int].subagents@.len() && self.sessions@[parent as int].data_file is Some;
                match r {
                    Some(p) => found && (row matches Row::Subagent { parent, index } && p@ == subagent_path(
                        self.sessions@[parent as int].data_file->0@,
                        self.sessions@[parent as int].subagents@[index as int].agent_id@,
                    )),
                    None => !found,
                }
            }),
    {
        match row {
            Row::Session(_) => None,
            Row::Subagent { parent, index } => {
                if parent >= self.sessions.len() || index >= self.sessions[parent].subagents.len() {
                    return None;
                }
                match &self.sessions[parent].data_file {
                    None => None,
                    Some(p) => {
                        let mut s = cat(without_extension(p.as_str()).as_str(), "/subagents/");
                        s.append(self.sessions[parent].subagents[index].agent_id.as_str());
                        s.append(".jsonl");
                        Some(s)
                    },
                }
            },
        }
    }

    /// Whether `r` is what the bottom panels should describe for a row.
    pub open spec fn is_subject(&self, row: Row, stamp: Seq<char>, r: Option<Session>) -> bool {
        if row.owner() >= self.sessions@.len() {
            r is None
        } else {
            let s = self.sessions@[row.owner() as int];
            match row {
                Row::Session(_) => r is Some && alike(r->0, s),
                Row::Subagent { parent: _, index } => if index >= s.subagents@.len()
                    || s.subagents@[index as int].purged {
                    r is None
                } else {
                    r is Some && is_stand_in(s, s.subagents@[index as int], stamp, r->0)
                },
            }
        }
    }

    /// What the bottom panels should describe for a row.
    ///
    /// A subagent gets a stand-in session pointed at its own transcript, so the
    /// panels describe the subagent rather than the parent it ran under. `stamp`
    /// is when that transcript was last written. A purged one leaves nothing to
    /// read.
    pub fn panel_subject(&self, row: Row, stamp: &str) -> (r: Option<Session>)
        ensures
            self.is_subject(row, stamp@, r),
    {
        let at: usize = row.session();
        if at >= self.sessions.len() {
            return None;
        }
        let session = &self.sessions[at];
        let index: usize = match row {
            Row::Session(_) => {
                return Some(session.copy());
            },
            Row::Subagent { parent: _, index } => index,
        };
        if index >= session.subagents.len() || session.subagents[index].purged {
            return None;
        }
        let sub = &session.subagents[index];
        let mut stand_in = Session::new(session.provider, session.agent.clone(), sub.agent_id.clone());
        stand_in.surface = session.surface;
        stand_in.type_label = session.type_label.clone();
        stand_in.model = sub.model.clone();
        stand_in.label_source = session.label_source.clone();
        stand_in.harness = session.harness.clone();
        if !sub.description.as_str().is_empty() {
            stand_in.title = Some(sub.description.clone());
        }
        match &sub.started_at {
            Some(t) => {
                stand_in.started_at = t.clone();
            },
            None => {},
        }
        stand_in.data_file = self.panel_file(row);
        if stand_in.data_file.is_some() {
            stand_in.last_active = stamp.to_owned();
        }
        Some(stand_in)
    }

    /// Whether the panels are blank, scrolled back and following again.
    pub open spec fn reset_for(&self, after: App, key: Seq<char>, stamp: Seq<char>) -> bool {
        &&& after.panel_data is None
        &&& after.panel_key@ == key
        &&& after.panel_stamp@ == stamp
        &&& after == (App {
            panel_data: None,
            panel_key: after.panel_key,
            panel_stamp: after.panel_stamp,
            info_scroll: 0,
            cost_scroll: 0,
            config_scroll: 0,
            proc_scroll: 0,
            subagent_scroll: 0,
            tool_scroll: 0,
            tool_follow: true,
            tool_tab: 0,
            tool_expanded: None,
            effects: after.effects,
            ..*self
        })
    }

    /// What [`App::sync_panel_data`] does when the row's subject is `s`.
    pub open spec fn synced(&self, s: Session, after: App) -> bool {
        if s.remote is Some {
            &&& after.panel_data is None
            &&& after.panel_key@ == key_of(s)
            &&& after.panel_stamp@ == s.last_active@
            &&& after == (App {
                panel_data: None,
                panel_key: after.panel_key,
                panel_stamp: after.panel_stamp,
                ..*self
            })
        } else if key_of(s) != self.panel_key@ {
            &&& self.reset_for(after, key_of(s), s.last_active@)
            &&& after.effects@ == self.effects@.push(Effect::LoadData(s))
        } else if s.last_active@ != self.panel_stamp@ {
            &&& after.effects@ == self.effects@.push(Effect::LoadData(s))
            &&& after.panel_key@ == key_of(s)
            &&& after.panel_stamp@ == s.last_active@
            &&& after == (App {
                panel_key: after.panel_key,
                panel_stamp: after.panel_stamp,
                effects: after.effects,
                ..*self
            })
        } else {
            after == *self
        }
    }

    /// Ask for the selected row's full data if it isn't loaded.
    ///
    /// A live session keeps growing, so it is asked for again whenever its
    /// newest activity moves. The panels go blank only when another session is
    /// selected. A row of another machine has nothing here to read.
    pub fn sync_panel_data(&mut self, stamp: &str)
        ensures
            match old(self).row_at() {
                Some(row) => exists|subject: Option<Session>|
                    {
                        &&& #[trigger] old(self).is_subject(row, stamp@, subject)
                        &&& match subject {
                            Some(s) => old(self).synced(s, *final(self)),
                            None => old(self).emptied(*final(self)),
                        }
                    },
                None => old(self).emptied(*final(self)),
            },
    {
        let row = match self.selected_row() {
            Some(row) => row,
            None => {
                self.panel_data = None;
                self.panel_key = String::new();
                return;
            },
        };
        let subject = self.panel_subject(row, stamp);
        let ghost is = subject;
        assert(old(self).is_subject(row, stamp@, is));
        let session = match subject {
            Some(s) => s,
            None => {
                self.panel_data = None;
                self.panel_key = String::new();
                return;
            },
        };
        let key = session.key();
        let newest = session.last_active.clone();
        if session.remote.is_some() {
            self.panel_data = None;
            self.panel_key = key;
            self.panel_stamp = newest;
            return;
        }
        let switched = !same(key.as_str(), self.panel_key.as_str());
        let grew = !switched && !same(newest.as_str(), self.panel_stamp.as_str());
        if !switched && !grew {
            return;
        }
        self.panel_key = key;
        self.panel_stamp = newest;
        if switched {
            self.panel_data = None;
            self.info_scroll = 0;
            self.cost_scroll = 0;
            self.config_scroll = 0;
            self.proc_scroll = 0;
            self.subagent_scroll = 0;
            self.tool_scroll = 0;
            self.tool_follow = true;
            self.tool_tab = 0;
            self.tool_expanded = None;
        }
        self.ask(Effect::LoadData(session));
    }

    /// Whether the panels have nothing to describe.
    pub open spec fn emptied(&self, after: App) -> bool {
        &&& after.panel_key@.len() == 0
        &&& after == (App { panel_data: None, panel_key: after.panel_key, ..*self })
    }

    /// Whether bottom panel `tab` has anything to show for the cursor's row.
    ///
    /// Performance and Processes read a live process tree. Context reads the
    /// usage that only one agent's transcripts report.
    pub open spec fn offers(&self, tab: int) -> bool {
        if tab == 1 || tab == 2 {
            self.session_at() is Some && self.session_at()->0.running()
        } else if tab == 7 {
            self.session_at() is Some && self.session_at()->0.provider == Provider::Claude
        } else {
            true
        }
    }

    /// Whether bottom panel `tab` has anything to show for the cursor's row.
    pub fn tab_available(&self, tab: usize) -> (r: bool)
        ensures
            r == self.offers(tab as int),
    {
        match tab {
            1 | 2 => match self.selected_session() {
                Some(s) => s.is_running(),
                None => false,
            },
            7 => match self.selected_session() {
                Some(s) => s.provider == Provider::Claude,
                None => false,
            },
            _ => true,
        }
    }

    /// The panel that is shown for the cursor's row when `tab` is asked for.
    pub open spec fn fallback(&self, tab: usize) -> usize {
        if self.offers(tab as int) {
            tab
        } else {
            0
        }
    }

    /// Leave a panel that has nothing to show.
    pub fn ensure_available_tab(&mut self)
        ensures
            *final(self) == (App { bottom_tab: old(self).fallback(old(self).bottom_tab), ..*old(self) }),
            final(self).offers(final(self).bottom_tab as int),
    {
        if !self.tab_available(self.bottom_tab) {
            self.bottom_tab = 0;
        }
    }

    /// Move the cursor by `delta` rows, stopping at both ends.
    pub fn move_selection(&mut self, delta: isize)
        ensures
            if old(self).visible@.len() == 0 {
                *final(self) == *old(self)
            } else {
                let to = clamped(old(self).selected as int, delta as int, 0, old(self).visible@.len() - 1) as usize;
                let moved = App { selected: to, ..*old(self) };
                *final(self) == (App { bottom_tab: moved.fallback(moved.bottom_tab), needs_redraw: true, ..moved })
            },
            old(self).visible@.len() > 0 ==> final(self).selected < final(self).visible@.len(),
    {
        if self.visible.len() == 0 {
            return;
        }
        let last: usize = self.visible.len() - 1;
        self.selected = walk(self.selected, delta, 0, last);
        self.ensure_available_tab();
        self.needs_redraw = true;
    }

    /// Sort by `col`, turning the order round when it already is.
    pub fn set_sort(&mut self, col: ColumnId)
        ensures
            final(self).sort_col == col,
            final(self).sort_asc == (if old(self).sort_col == col {
                !old(self).sort_asc
            } else {
                true
            }),
            final(self).rows_in_order(),
            final(self).selected == cursor_on(
                old(self).sessions@,
                final(self).visible@,
                old(self).cursor_name(),
                old(self).selected as int,
            ),
            final(self).effects@ == old(self).effects@.push(Effect::SavePrefs),
            *final(self) == (App {
                sort_col: col,
                sort_asc: final(self).sort_asc,
                visible: final(self).visible,
                selected: final(self).selected,
                effects: final(self).effects,
                needs_redraw: true,
                ..*old(self)
            }),
    {
        if self.sort_col == col {
            self.sort_asc = !self.sort_asc;
        } else {
            self.sort_col = col;
            self.sort_asc = true;
        }
        self.refilter();
        self.save_prefs();
    }

    /// The invocation under row `row_offset` of the tool log.
    pub open spec fn invocation_at(&self, row_offset: int) -> Option<String> {
        let line = self.tool_scroll + row_offset;
        if line < self.tool_owners@.len() {
            self.tool_owners@[line]
        } else {
            None
        }
    }

    /// Expand or collapse the invocation under a clicked log row.
    ///
    /// Clicking the open entry again closes it. The log stops following, because
    /// it would otherwise slide the row away.
    pub fn toggle_tool_expansion(&mut self, row_offset: usize)
        ensures
            match old(self).invocation_at(row_offset as int) {
                None => *final(self) == *old(self),
                Some(key) => *final(self) == (App {
                    tool_expanded: if old(self).tool_expanded is Some && old(self).tool_expanded->0@ == key@ {
                        None
                    } else {
                        Some(key)
                    },
                    tool_follow: false,
                    needs_redraw: true,
                    ..*old(self)
                }),
            },
    {
        let n: usize = self.tool_owners.len();
        let line: usize = match (self.tool_scroll as usize).checked_add(row_offset) {
            Some(line) => line,
            None => {
                return;
            },
        };
        if line >= n {
            return;
        }
        let key = match &self.tool_owners[line] {
            Some(key) => key.clone(),
            None => {
                return;
            },
        };
        let open = match &self.tool_expanded {
            Some(k) => same(k.as_str(), key.as_str()),
            None => false,
        };
        self.tool_expanded = if open {
            None
        } else {
            Some(key)
        };
        self.tool_follow = false;
        self.needs_redraw = true;
    }

    /// Move through the Tool Activity sidebar, which filters the log by tool.
    ///
    /// A different filter is a different log, so it starts at its newest entry.
    pub fn cycle_tool_filter(&mut self, delta: isize)
        ensures
            match old(self).panel_data {
                None => *final(self) == *old(self),
                Some(d) => *final(self) == (App {
                    tool_tab: stepped(old(self).tool_tab as int, delta as int, tab_count(d)) as usize,
                    tool_follow: true,
                    bottom_tab: 3,
                    needs_redraw: true,
                    ..*old(self)
                }),
            },
    {
        let n: usize = match &self.panel_data {
            Some(d) => crate::panels::tool_tabs(d).len(),
            None => {
                return;
            },
        };
        self.tool_tab = step(self.tool_tab, delta, n);
        self.tool_follow = true;
        self.bottom_tab = 3;
        self.needs_redraw = true;
    }

    /// The panel `k` steps of `delta` along.
    pub open spec fn panel_after(&self, delta: int, k: nat) -> int
        decreases k,
    {
        if k == 0 {
            self.bottom_tab as int
        } else {
            stepped(self.panel_after(delta, (k - 1) as nat), delta, 9)
        }
    }

    /// Move to the next or previous bottom panel that has something to show,
    /// wrapping at both ends.
    pub fn cycle_tab(&mut self, delta: isize)
        ensures
            final(self).effects@ == old(self).effects@.push(Effect::SavePrefs),
            *final(self) == (App {
                bottom_tab: final(self).bottom_tab,
                effects: final(self).effects,
                needs_redraw: true,
                ..*old(self)
            }),
            ({
                ||| exists|k: nat|
                    {
                        &&& 1 <= k <= 9
                        &&& final(self).bottom_tab == #[trigger] old(self).panel_after(delta as int, k)
                        &&& old(self).offers(old(self).panel_after(delta as int, k))
                        &&& forall|j: nat| 1 <= j < k ==> !old(self).offers(#[trigger] old(self).panel_after(delta as int, j))
                    }
                ||| {
                    &&& final(self).bottom_tab == old(self).bottom_tab
                    &&& forall|j: nat| 1 <= j <= 9 ==> !old(self).offers(#[trigger] old(self).panel_after(delta as int, j))
                }
            }),
    {
        let n: usize = TABS.len();
        let mut next: usize = self.bottom_tab;
        let mut k: usize = 0;
        let mut found = false;
        while k < n && !found
            invariant
                k <= n,
                n == 9,
                *self == *old(self),
                next == self.panel_after(delta as int, k as nat),
                found ==> k >= 1 && self.offers(next as int),
                forall|j: nat| 1 <= j < k ==> !self.offers(#[trigger] self.panel_after(delta as int, j)),
                !found && k >= 1 ==> !self.offers(self.panel_after(delta as int, k as nat)),
            decreases n - k,
        {
            next = step(next, delta, n);
            k += 1;
            assert(next == self.panel_after(delta as int, k as nat));
            found = self.tab_available(next);
        }
        if found {
            self.bottom_tab = next;
        }
        self.save_prefs();
        self.needs_redraw = true;
        proof {
            if found {
                assert(self.bottom_tab == old(self).panel_after(delta as int, k as nat));
            }
        }
    }

    /// What scrolling `v` by `delta` makes of it on the panel in view.
    pub open spec fn scrolled(&self, v: u16, delta: i32) -> u16 {
        clamped(v as int, delta as int, 0, self.panel_max_scroll as int) as u16
    }

    fn scroll_to(&self, v: u16, delta: i32) -> (r: u16)
        ensures
            r == self.scrolled(v, delta),
    {
        let to: i64 = v as i64 + delta as i64;
        if to < 0 {
            0
        } else if to > self.panel_max_scroll as i64 {
            self.panel_max_scroll
        } else {
            to as u16
        }
    }

    /// Scroll the panel in view, stopping at both ends.
    ///
    /// The jumps to either end are the smallest and the largest `delta` rather
    /// than a computed distance, because the panel's length is the renderer's to
    /// know. Performance is a fixed pair of charts and does not scroll. The tool
    /// log follows again once it is scrolled back to its newest entry.
    pub fn scroll_active_panel(&mut self, delta: i32)
        ensures
            *final(self) == (match old(self).bottom_tab {
                0 => App { info_scroll: old(self).scrolled(old(self).info_scroll, delta), needs_redraw: true, ..*old(self) },
                1 => App { needs_redraw: true, ..*old(self) },
                2 => App { proc_scroll: old(self).scrolled(old(self).proc_scroll, delta), needs_redraw: true, ..*old(self) },
                3 => App {
                    tool_scroll: old(self).scrolled(old(self).tool_scroll, delta),
                    tool_follow: old(self).scrolled(old(self).tool_scroll, delta) >= old(self).panel_max_scroll,
                    needs_redraw: true,
                    ..*old(self)
                },
                4 => App {
                    subagent_scroll: old(self).scrolled(old(self).subagent_scroll, delta),
                    needs_redraw: true,
                    ..*old(self)
                },
                5 => App { cost_scroll: old(self).scrolled(old(self).cost_scroll, delta), needs_redraw: true, ..*old(self) },
                6 => App {
                    config_scroll: old(self).scrolled(old(self).config_scroll, delta),
                    needs_redraw: true,
                    ..*old(self)
                },
                _ => App {
                    context_scroll: old(self).scrolled(old(self).context_scroll, delta),
                    needs_redraw: true,
                    ..*old(self)
                },
            }),
    {
        match self.bottom_tab {
            0 => {
                self.info_scroll = self.scroll_to(self.info_scroll, delta);
            },
            1 => {},
            2 => {
                self.proc_scroll = self.scroll_to(self.proc_scroll, delta);
            },
            3 => {
                self.tool_scroll = self.scroll_to(self.tool_scroll, delta);
                self.tool_follow = self.tool_scroll >= self.panel_max_scroll;
            },
            4 => {
                self.subagent_scroll = self.scroll_to(self.subagent_scroll, delta);
            },
            5 => {
                self.cost_scroll = self.scroll_to(self.cost_scroll, delta);
            },
            6 => {
                self.config_scroll = self.scroll_to(self.config_scroll, delta);
            },
            _ => {
                self.context_scroll = self.scroll_to(self.context_scroll, delta);
            },
        }
        self.needs_redraw = true;
    }

    /// Copy something useful about the selection to the clipboard.
    ///
    /// From the Info panel that is the command that resumes it; from the others,
    /// and for an agent that has none, where its transcript is.
    pub fn copy_selection(&mut self)
        ensures
            match old(self).session_at() {
                None => *final(self) == *old(self),
                Some(s) => {
                    let text = copied(s, old(self).bottom_tab);
                    &&& final(self).effects@.len() == old(self).effects@.len() + 1
                    &&& final(self).effects@.drop_last() == old(self).effects@
                    &&& final(self).effects@.last() matches Effect::Copy(t) && t@ == text
                    &&& (App { effects: final(self).effects, ..*old(self) }).said(
                        "Copied: "@ + cut(text, 60),
                        *final(self),
                    )
                },
            },
    {
        let text = match self.selected_session() {
            None => {
                return;
            },
            Some(s) => {
                let resume = if self.bottom_tab == 0 {
                    resume_command(s)
                } else {
                    None
                };
                match resume {
                    Some(argv) => argv,
                    None => match &s.data_file {
                        Some(p) => p.clone(),
                        None => s.session_id.clone(),
                    },
                }
            },
        };
        let said = cat("Copied: ", truncate(text.as_str(), 60).as_str());
        self.ask(Effect::Copy(text));
        assert(self.effects@.drop_last() =~= old(self).effects@);
        self.set_status(said);
    }

    /// Half the visible table height, at most a page and at least one row. A page
    /// before the table has been drawn for the first time.
    pub fn half_page(&self) -> (r: usize)
        ensures
            r == (if self.list_height == 0 {
                PAGE as int
            } else if self.list_height / 2 < 1 {
                1
            } else if self.list_height / 2 > PAGE {
                PAGE as int
            } else {
                (self.list_height / 2) as int
            }),
    {
        let half: usize = (self.list_height / 2) as usize;
        if self.list_height == 0 {
            PAGE
        } else if half < 1 {
            1
        } else if half > PAGE {
            PAGE
        } else {
            half
        }
    }

    /// Whether a hook has said that the subagent `id` is done.
    pub open spec fn retired(&self, id: Seq<char>) -> bool {
        begins(id, "agent-"@) && self.finished_agents@.contains(id.skip("agent-"@.len() as int))
    }

    /// What taking the hooks' word leaves of a state.
    pub open spec fn hooks_heard(&self, after: App) -> bool {
        &&& after == (App { sessions: after.sessions, ..*self })
        &&& after.sessions@.len() == self.sessions@.len()
        &&& forall|i: int|
            0 <= i < self.sessions@.len() ==> {
                let was = self.sessions@[i];
                let now = #[trigger] after.sessions@[i];
                &&& now == (Session { subagents: now.subagents, ..was })
                &&& now.subagents@ == was.subagents@.map_values(|s: Subagent| self.after_hooks(s))
            }
    }

    /// Take the hooks' word for the subagents that are done.
    ///
    /// A hook names the bare id; the transcript is stored as `agent-<id>`.
    pub fn apply_finished_agents(&mut self)
        ensures
            old(self).hooks_heard(*final(self)),
    {
        let mut sessions: Vec<Session> = Vec::new();
        std::mem::swap(&mut sessions, &mut self.sessions);
        let ghost was = sessions@;
        let mut i: usize = 0;
        while i < sessions.len()
            invariant
                i <= sessions@.len(),
                sessions@.len() == was.len(),
                was == old(self).sessions@,
                self.finished_agents == old(self).finished_agents,
                *self == (App { sessions: self.sessions, ..*old(self) }),
                forall|j: int| i <= j < was.len() ==> #[trigger] sessions@[j] == was[j],
                forall|j: int|
                    0 <= j < i ==> {
                        let now = #[trigger] sessions@[j];
                        &&& now == (Session { subagents: now.subagents, ..was[j] })
                        &&& now.subagents@ == was[j].subagents@.map_values(|s: Subagent| old(self).after_hooks(s))
                    },
            decreases sessions@.len() - i,
        {
            let mut subs: Vec<Subagent> = Vec::new();
            let mut k: usize = 0;
            while k < sessions[i].subagents.len()
                invariant
                    i < sessions@.len(),
                    k <= sessions@[i as int].subagents@.len(),
                    self.finished_agents == old(self).finished_agents,
                    subs@ =~= sessions@[i as int].subagents@.take(k as int).map_values(
                        |s: Subagent| old(self).after_hooks(s),
                    ),
                decreases sessions@[i as int].subagents@.len() - k,
            {
                let mut sub = sessions[i].subagents[k].clone();
                match after_prefix(sub.agent_id.as_str(), "agent-") {
                    Some(bare) => {
                        if self.finished_agents.contains(bare.as_str()) {
                            sub.status = SubagentStatus::Done;
                        }
                    },
                    None => {},
                }
                subs.push(sub);
                k += 1;
            }
            assert(sessions@[i as int].subagents@.take(k as int) =~= sessions@[i as int].subagents@);
            sessions[i].subagents = subs;
            i += 1;
        }
        self.sessions = sessions;
    }

    /// A subagent once the hooks have been heard.
    pub open spec fn after_hooks(&self, s: Subagent) -> Subagent {
        if self.retired(s.agent_id@) {
            Subagent { status: SubagentStatus::Done, ..s }
        } else {
            s
        }
    }
}

proof fn the_last_is_found(head: Seq<char>, c: char, rest: Seq<char>)
    requires
        forall|i: int| 0 <= i < rest.len() ==> #[trigger] rest[i] != c,
    ensures
        last_place(head.push(c) + rest, c) == head.len(),
        last_place(rest, c) == -1,
    decreases rest.len(),
{
    let all = head.push(c) + rest;
    if rest.len() > 0 {
        assert(all.last() == rest[rest.len() - 1]);
        assert(all.drop_last() =~= head.push(c) + rest.drop_last());
        the_last_is_found(head, c, rest.drop_last());
    } else {
        assert(all.last() == c);
    }
}

/// A file's path without its extension is all that stands before the last dot of its
/// name, and a path whose name has none is left as it is.
pub proof fn an_extension_is_left_out(dir: Seq<char>, stem: Seq<char>, ext: Seq<char>)
    requires
        stem.len() > 0,
        stem != seq!['.'] || ext.len() > 0,
        forall|i: int| 0 <= i < stem.len() ==> #[trigger] stem[i] != '/',
        forall|i: int| 0 <= i < ext.len() ==> #[trigger] ext[i] != '/' && ext[i] != '.',
    ensures
        bare_path(dir + "/"@ + stem + "."@ + ext) == dir + "/"@ + stem,
        bare_path(ext) == ext,
{
    reveal_strlit("/");
    reveal_strlit(".");
    let s = dir + "/"@ + stem + "."@ + ext;
    let head = dir + "/"@ + stem;
    assert(s =~= head.push('.') + ext);
    the_last_is_found(head, '.', ext);
    let rest = stem + "."@ + ext;
    assert forall|i: int| 0 <= i < rest.len() implies #[trigger] rest[i] != '/' by {
        if i < stem.len() {
            assert(rest[i] == stem[i]);
        } else if i > stem.len() {
            assert(rest[i] == ext[i - stem.len() - 1]);
        }
    }
    assert(s =~= dir.push('/') + rest);
    the_last_is_found(dir, '/', rest);
    assert(s.skip(dir.len() as int + 1) =~= rest);
    if rest == seq!['.', '.'] {
        assert(rest.len() == 2);
        assert(stem.len() == 1 && ext.len() == 0);
        assert(stem[0] == rest[0]);
        assert(stem =~= seq!['.']);
    }
    assert(s.take(head.len() as int) =~= head);
    the_last_is_found(Seq::empty(), '.', ext);
    the_last_is_found(Seq::empty(), '/', ext);
}

/// A subagent's transcript is in its own session's directory, under its own id.
pub proof fn a_transcript_is_under_its_session(dir: Seq<char>, stem: Seq<char>, id: Seq<char>)
    requires
        stem.len() > 0,
        forall|i: int| 0 <= i < stem.len() ==> #[trigger] stem[i] != '/',
    ensures
        subagent_path(dir + "/"@ + stem + "."@ + "jsonl"@, id) == dir + "/"@ + stem + "/subagents/"@ + id + ".jsonl"@,
{
    reveal_strlit("jsonl");
    an_extension_is_left_out(dir, stem, "jsonl"@);
}

/// What resumes a session ends with that session's id, is what the Info panel says, and
/// is what is copied while that panel is on.
pub proof fn a_session_is_resumed_by_its_id(s: Session, tab: usize)
    ensures
        resume_words(s) matches Some(words) ==> crate::text::ends(words, s.session_id@) && words
            == crate::panels::info::command_text(s) && (tab == 0 ==> copied(s, tab) == words),
        resume_words(s) is None <==> s.provider == Provider::Cursor || s.provider == Provider::Gemini || s.provider
            == Provider::Windsurf,
        tab != 0 && s.data_file is Some ==> copied(s, tab) == s.data_file->0@,
{
    if let Some(words) = resume_words(s) {
        assert(words.skip(words.len() - s.session_id@.len()) =~= s.session_id@);
    }
}

/// The session under the cursor is the one the cursor's row is of: the row's name is
/// that session's key, or begins with it where the row is a subagent's.
pub proof fn the_cursor_names_its_session(app: App)
    requires
        app.session_at() is Some,
    ensures
        app.row_at() is Some,
        app.cursor_name() is Some,
        app.row_at()->0 is Session ==> app.cursor_name()->0 == key_of(app.session_at()->0),
        app.row_at()->0 is Subagent ==> begins(app.cursor_name()->0, key_of(app.session_at()->0)),
        app.subagent_at() matches Some(sub) ==> app.cursor_name()->0 == key_of(app.session_at()->0) + "/"@ + sub.agent_id@,
{
    let name = app.cursor_name()->0;
    let key = key_of(app.session_at()->0);
    assert(name.take(key.len() as int) =~= key);
}

/// A panel that reads a live process is offered for a session that runs, the window for
/// the one agent whose transcripts tell it, and every other panel always.
pub proof fn a_panel_is_offered_where_it_has_something(app: App, s: Session)
    requires
        app.session_at() == Some(s),
    ensures
        app.offers(1) == (s.process is Some || s.inferred_running),
        app.offers(2) == (s.process is Some || s.inferred_running),
        app.offers(7) == (s.provider == Provider::Claude),
        app.offers(0) && app.offers(3) && app.offers(4) && app.offers(5) && app.offers(6) && app.offers(8),
{
}

/// A subagent that a hook has reported is done, and any other is as it was.
pub proof fn a_hook_ends_its_own_subagent(app: App, s: Subagent, id: Seq<char>)
    requires
        s.agent_id@ == "agent-"@ + id,
    ensures
        app.finished_agents@.contains(id) ==> app.after_hooks(s).status == SubagentStatus::Done,
        !app.finished_agents@.contains(id) ==> app.after_hooks(s) == s,
        app.after_hooks(s).agent_id == s.agent_id,
{
    assert(s.agent_id@.take("agent-"@.len() as int) =~= "agent-"@);
    assert(s.agent_id@.skip("agent-"@.len() as int) =~= id);
}

/// What a click on the log opens is the invocation whose line is under the pointer.
pub proof fn a_click_opens_the_call_under_it(app: App, row_offset: int)
    requires
        0 <= row_offset,
    ensures
        app.tool_scroll + row_offset < app.tool_owners@.len() ==> app.invocation_at(row_offset) == app.tool_owners@[app.tool_scroll
            + row_offset],
        app.tool_scroll + row_offset >= app.tool_owners@.len() ==> app.invocation_at(row_offset) is None,
{
}

/// Once they are synced the panels are of the row's own session, and what of it is not
/// read yet is asked for: of a session of this machine, and only where it has changed.
pub proof fn the_panels_follow_the_row(app: App, s: Session, after: App)
    requires
        app.synced(s, after),
    ensures
        after.panel_key@ == key_of(s),
        after.panel_stamp@ == s.last_active@,
        s.remote is Some ==> after.effects@ == app.effects@ && after.panel_data is None,
        s.remote is None && key_of(s) != app.panel_key@ ==> after.effects@ == app.effects@.push(Effect::LoadData(s))
            && after.panel_data is None && after.info_scroll == 0,
        s.remote is None && key_of(s) == app.panel_key@ && s.last_active@ == app.panel_stamp@ ==> after == app,
        s.remote is None && key_of(s) == app.panel_key@ && s.last_active@ != app.panel_stamp@ ==> after.effects@
            == app.effects@.push(Effect::LoadData(s)) && after.panel_data == app.panel_data && after.info_scroll
            == app.info_scroll,
{
}

/// The panels describe a subagent by its own id, model and transcript, under its
/// session's agent; of one that was purged they describe nothing.
pub proof fn a_subagents_panels_are_its_own(app: App, parent: usize, index: usize, stamp: Seq<char>, r: Option<Session>)
    requires
        parent < app.sessions@.len(),
        index < app.sessions@[parent as int].subagents@.len(),
        app.is_subject(Row::Subagent { parent, index }, stamp, r),
    ensures
        ({
            let s = app.sessions@[parent as int];
            let sub = s.subagents@[index as int];
            &&& sub.purged <==> r is None
            &&& r matches Some(it) ==> {
                &&& it.session_id == sub.agent_id
                &&& it.model == sub.model
                &&& it.agent == s.agent
                &&& it.provider == s.provider
                &&& it.label_source == s.label_source
                &&& s.data_file matches Some(p) ==> it.data_file is Some && it.data_file->0@ == subagent_path(
                    p@,
                    sub.agent_id@,
                )
                &&& sub.description@.len() > 0 ==> it.title == Some(sub.description)
            }
        }),
{
}

} // verus!
