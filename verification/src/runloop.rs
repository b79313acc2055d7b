//! The loop that turns what is heard into what is shown: what each answer changes,
//! when the next walk is due, and how long to wait for a key.

use vstd::prelude::*;

use crate::app::{adds_up, compute_spend, App, Effect, Spend};
use crate::data::SessionData;
use crate::footer::Desk;
use crate::keys::{entered, unkeyed, KeyMap};
use crate::model::{copy_text, key_of, Session};
use crate::quota::{ProfileQuota, ProviderStatus, Quota, Window};
use crate::remote::{Collision, Fleet};
use crate::text::{cat, decimal, dec, same};

verus! {

/// Milliseconds between walks of every directory. A watch reports new sessions as
/// they come, and this is the net under it.
pub const FULL_WALK_INTERVAL: u64 = 60_000;

/// Milliseconds between walks while a file that was created has yet to become a
/// session.
pub const PENDING_WALK_INTERVAL: u64 = 3_000;

/// Milliseconds the status line stays.
pub const STATUS_STAYS: u64 = 3_000;

/// How long a pasted image is shown.
pub const PASTED_STAYS: u64 = 5_000;

/// What turns mouse reports on: presses, drags and the wheel, but not every cell a
/// pointer crosses, which is turned off first in case it was left on.
pub const MOUSE_ON: &'static str = "\u{1b}[?1003l\u{1b}[?1000h\u{1b}[?1002h\u{1b}[?1006h";

/// What another machine answered to being read.
pub enum Snapshot {
    Rows(Vec<Session>),
    Failed(String),
}

/// What the workers answer.
pub enum Response {
    /// The sessions there are, before they are read.
    Discovered(Vec<Session>),
    /// One session, read.
    Annotated(Session),
    /// Every session, read, and what they come to.
    Sessions(Vec<Session>, Spend),
    /// The sessions that are running, and what all come to.
    LiveRows(Vec<Session>, Spend),
    /// A session's transcript, by its key.
    Data(String, SessionData),
    /// There is a newer version.
    UpdateAvailable(String),
    /// Rates have arrived, and what was computed without them is to be done again.
    PricingReady,
    /// A session's agent was told to end.
    Terminated(String, Result<(), String>),
    Deleted(String, Result<(), String>),
    /// Text was typed into a session's terminal.
    KeysSent(Result<(), String>),
    /// Another machine was read.
    Remote(String, Snapshot),
    /// The report on every transcript.
    Insight(String),
}

/// Where the loop is.
#[derive(Debug, Clone, Copy, PartialEq, Eq, Structural)]
pub struct Pulse {
    /// When the rows were last asked for.
    pub last_refresh: u64,
    /// When every directory was last walked.
    pub last_full_walk: u64,
    /// Whether an answer is still to come.
    pub in_flight: bool,
    /// Whether a blink was lit.
    pub blink: bool,
    /// Whether single rows have been read since the last settling.
    pub annotated: bool,
    /// Whether the table has changed since then.
    pub rows: bool,
}

impl Pulse {
    /// The loop at its start, with the first walk asked for.
    pub fn new(now: u64) -> (r: Pulse)
        ensures
            r == (Pulse {
                last_refresh: now,
                last_full_walk: now,
                in_flight: true,
                blink: true,
                annotated: false,
                rows: false,
            }),
    {
        Pulse { last_refresh: now, last_full_walk: now, in_flight: true, blink: true, annotated: false, rows: false }
    }
}

/// Whether two rows are the same session of this machine. A row of another machine
/// may share an id.
pub open spec fn same_row(a: Session, b: Session) -> bool {
    a.remote is None && a.provider == b.provider && a.session_id@ == b.session_id@
}

/// The first place from `i` on that has the session's row.
pub open spec fn row_of(sessions: Seq<Session>, s: Session, i: int) -> Option<int>
    decreases sessions.len() - i,
{
    if i < 0 || i >= sessions.len() {
        None
    } else if same_row(sessions[i], s) {
        Some(i)
    } else {
        row_of(sessions, s, i + 1)
    }
}

/// The sessions with a row read anew: in its place, or behind the others where it
/// is new.
pub open spec fn upserted(sessions: Seq<Session>, s: Session) -> Seq<Session> {
    match row_of(sessions, s, 0) {
        Some(i) => sessions.update(i, s),
        None => sessions.push(s),
    }
}

/// The sessions with the first `n` of `rows` read anew.
pub open spec fn all_upserted(sessions: Seq<Session>, rows: Seq<Session>, n: int) -> Seq<Session>
    decreases n,
{
    if n <= 0 {
        sessions
    } else {
        upserted(all_upserted(sessions, rows, n - 1), rows[n - 1])
    }
}

fn upsert(sessions: &mut Vec<Session>, s: Session)
    ensures
        final(sessions)@ == upserted(old(sessions)@, s),
{
    let ghost was = sessions@;
    let n: usize = sessions.len();
    let mut i: usize = 0;
    while i < n
        invariant
            i <= n,
            n == sessions@.len(),
            sessions@ == was,
            was == old(sessions)@,
            row_of(was, s, 0) == row_of(was, s, i as int),
        decreases n - i,
    {
        let one = &sessions[i];
        if one.remote.is_none() && one.provider == s.provider && same(one.session_id.as_str(), s.session_id.as_str()) {
            assert(same_row(was[i as int], s));
            sessions.set(i, s);
            return;
        }
        i += 1;
    }
    sessions.push(s);
}

/// A row that is read anew is in the table, and no row of another machine is
/// touched.
pub proof fn a_row_read_is_in_the_table(sessions: Seq<Session>, s: Session, i: int)
    requires
        0 <= i < sessions.len(),
        sessions[i].remote is Some,
    ensures
        upserted(sessions, s).contains(s),
        upserted(sessions, s)[i] == sessions[i],
{
    row_found(sessions, s, 0);
    match row_of(sessions, s, 0) {
        Some(k) => {
            assert(upserted(sessions, s)[k] == s);
        },
        None => {
            assert(upserted(sessions, s)[sessions.len() as int] == s);
        },
    }
}

proof fn row_found(sessions: Seq<Session>, s: Session, i: int)
    requires
        0 <= i,
    ensures
        row_of(sessions, s, i) matches Some(k) ==> i <= k < sessions.len() && same_row(sessions[k], s),
    decreases sessions.len() - i,
{
    if i < sessions.len() && !same_row(sessions[i], s) {
        row_found(sessions, s, i + 1);
    }
}

/// The sessions but those of a key.
pub open spec fn without_key(sessions: Seq<Session>, key: Seq<char>) -> Seq<Session>
    decreases sessions.len(),
{
    if sessions.len() == 0 {
        Seq::empty()
    } else if key_of(sessions.last()) == key {
        without_key(sessions.drop_last(), key)
    } else {
        without_key(sessions.drop_last(), key).push(sessions.last())
    }
}

fn drop_key(sessions: &mut Vec<Session>, key: &str)
    ensures
        final(sessions)@ == without_key(old(sessions)@, key@),
{
    let mut all: Vec<Session> = Vec::new();
    std::mem::swap(&mut all, sessions);
    let ghost was = all@;
    // Taken from the front, one by one.
    let n: usize = all.len();
    let mut i: usize = 0;
    assert(was.take(0) =~= Seq::<Session>::empty());
    assert(was.skip(0) =~= was);
    while i < n
        invariant
            i <= n,
            n == was.len(),
            all@ == was.skip(i as int),
            sessions@ == without_key(was.take(i as int), key@),
        decreases n - i,
    {
        let one = all.remove(0);
        proof {
            assert(one == was[i as int]);
            assert(was.take(i + 1).drop_last() =~= was.take(i as int));
            assert(was.take(i + 1).last() == one);
            assert(all@ =~= was.skip(i + 1));
        }
        if !same(one.key().as_str(), key) {
            sessions.push(one);
        }
        i += 1;
    }
    assert(was.take(n as int) =~= was);
}

/// A session that was deleted is gone, and no other is.
pub proof fn a_deleted_session_is_gone(sessions: Seq<Session>, key: Seq<char>, s: Session)
    ensures
        without_key(sessions, key).contains(s) <==> sessions.contains(s) && key_of(s) != key,
    decreases sessions.len(),
{
    if sessions.len() > 0 {
        let init = sessions.drop_last();
        let rest = without_key(init, key);
        a_deleted_session_is_gone(init, key, s);
        let all = without_key(sessions, key);
        if all.contains(s) {
            let i = choose|i: int| 0 <= i < all.len() && all[i] == s;
            if key_of(sessions.last()) != key && i == rest.len() {
                assert(sessions[sessions.len() - 1] == s);
            } else {
                assert(rest[i] == s);
                let j = choose|j: int| 0 <= j < init.len() && init[j] == s;
                assert(sessions[j] == s);
            }
        }
        if sessions.contains(s) && key_of(s) != key {
            let j = choose|j: int| 0 <= j < sessions.len() && sessions[j] == s;
            if j == sessions.len() - 1 {
                assert(all[all.len() - 1] == s);
            } else {
                assert(init[j] == s);
                let i = choose|i: int| 0 <= i < rest.len() && rest[i] == s;
                assert(all[i] == s);
            }
        }
    }
}

/// Deleting a session unmarks it, and the number of marked sessions that the footer
/// gives stays their number.
pub proof fn a_deleted_session_is_not_counted(a: App, key: Seq<char>, b: App)
    requires
        a.desk.marked.tidy(),
        a.deleted(key, b),
    ensures
        b.desk.marked@ == a.desk.marked@.remove(key),
        b.desk.marked.tidy(),
        b.desk.marked.items@.len() == b.desk.marked@.len(),
        b.desk.marked.items@.len() == (if a.desk.marked@.contains(key) {
            a.desk.marked.items@.len() - 1
        } else {
            a.desk.marked.items@.len() as int
        }),
{
    reveal(App::deleted);
    a.desk.marked.tidy_len();
    b.desk.marked.tidy_len();
}

impl App {
    /// What the sessions being found leaves of a state.
    #[verifier::opaque]
    pub open spec fn discovered(&self, sessions: Vec<Session>, after: App) -> bool {
        exists|base: App, mid: App|
            {
                &&& base == (App { sessions, spend: base.spend, desk: Desk { loaded: true, ..self.desk }, ..*self })
                &&& adds_up(base.spend, sessions@)
                &&& #[trigger] base.refiltered(base.cursor_name(), mid)
                &&& mid.with_remotes(after)
            }
    }

    fn on_discovered(&mut self, sessions: Vec<Session>)
        ensures
            old(self).discovered(sessions, *final(self)),
    {
        reveal(App::discovered);
        self.spend = compute_spend(&sessions);
        self.sessions = sessions;
        self.desk.loaded = true;
        let ghost base = *self;
        self.refilter();
        let ghost mid = *self;
        self.merge_remotes();
        assert(base.refiltered(base.cursor_name(), mid));
    }

    /// What every session being read leaves of a state.
    #[verifier::opaque]
    pub open spec fn reread(&self, sessions: Vec<Session>, spend: Spend, after: App) -> bool {
        let base = App { sessions, spend, desk: Desk { loaded: true, ..self.desk }, ..*self };
        exists|mid: App| #[trigger] base.with_remotes(mid) && mid.refiltered(mid.cursor_name(), after)
    }

    fn on_sessions(&mut self, sessions: Vec<Session>, spend: Spend)
        ensures
            old(self).reread(sessions, spend, *final(self)),
    {
        reveal(App::reread);
        self.sessions = sessions;
        self.spend = spend;
        self.desk.loaded = true;
        let ghost base = *self;
        self.merge_remotes();
        let ghost mid = *self;
        self.refilter();
        assert(base.with_remotes(mid));
    }

    /// What the running rows being read leaves of a state.
    #[verifier::opaque]
    pub open spec fn relived(&self, rows: Seq<Session>, spend: Spend, after: App) -> bool {
        exists|base: App, mid: App|
            {
                &&& base == (App { sessions: base.sessions, ..*self })
                &&& base.sessions@ == all_upserted(self.sessions@, rows, rows.len() as int)
                &&& #[trigger] base.adopted(spend, mid)
                &&& (App { desk: Desk { loaded: true, ..mid.desk }, ..mid }).refiltered(mid.cursor_name(), after)
            }
    }

    fn on_live_rows(&mut self, rows: Vec<Session>, spend: Spend)
        ensures
            old(self).relived(rows@, spend, *final(self)),
    {
        reveal(App::relived);
        let ghost all = rows@;
        let mut rows = rows;
        let n: usize = rows.len();
        let mut sessions: Vec<Session> = Vec::new();
        std::mem::swap(&mut sessions, &mut self.sessions);
        let ghost was = sessions@;
        let mut i: usize = 0;
        assert(all.skip(0) =~= all);
        while i < n
            invariant
                i <= n,
                n == all.len(),
                rows@ == all.skip(i as int),
                sessions@ == all_upserted(was, all, i as int),
            decreases n - i,
        {
            let one = rows.remove(0);
            assert(one == all[i as int]);
            assert(rows@ =~= all.skip(i + 1));
            upsert(&mut sessions, one);
            i += 1;
        }
        self.sessions = sessions;
        let ghost base = *self;
        self.adopt_stats(spend);
        let ghost mid = *self;
        self.desk.loaded = true;
        self.refilter();
        assert(base.adopted(spend, mid));
    }

    /// What a session having been deleted leaves of a state.
    #[verifier::opaque]
    pub open spec fn deleted(&self, key: Seq<char>, after: App) -> bool {
        exists|base: App, mid: App|
            {
                &&& base == (App {
                    sessions: base.sessions,
                    spend: base.spend,
                    desk: Desk { deleting: base.desk.deleting, marked: base.desk.marked, ..self.desk },
                    ..*self
                })
                &&& base.sessions@ == without_key(self.sessions@, key)
                &&& base.desk.deleting@ == self.desk.deleting@.remove(key)
                &&& base.desk.marked@ == self.desk.marked@.remove(key)
                &&& self.desk.marked.tidy() ==> base.desk.marked.tidy()
                &&& self.desk.deleting.tidy() ==> base.desk.deleting.tidy()
                &&& adds_up(base.spend, base.sessions@)
                &&& #[trigger] base.refiltered(base.cursor_name(), mid)
                &&& mid.said("Deleted session"@, after)
            }
    }

    fn on_deleted(&mut self, key: &str)
        ensures
            old(self).deleted(key@, *final(self)),
    {
        reveal(App::deleted);
        self.desk.deleting.remove(key);
        drop_key(&mut self.sessions, key);
        self.desk.marked.remove(key);
        self.spend = compute_spend(&self.sessions);
        let ghost base = *self;
        self.refilter();
        let ghost mid = *self;
        self.set_status("Deleted session".to_owned());
        assert(base.refiltered(base.cursor_name(), mid));
    }

    /// What a session that could not be deleted leaves of a state.
    #[verifier::opaque]
    pub open spec fn not_deleted(&self, key: Seq<char>, why: Seq<char>, after: App) -> bool {
        exists|base: App|
            {
                &&& base == (App { desk: Desk { deleting: base.desk.deleting, ..self.desk }, ..*self })
                &&& base.desk.deleting@ == self.desk.deleting@.remove(key)
                &&& self.desk.deleting.tidy() ==> base.desk.deleting.tidy()
                &&& #[trigger] base.said("Could not delete "@ + key + ": "@ + why, after)
            }
    }

    fn on_not_deleted(&mut self, key: &str, why: &str)
        ensures
            old(self).not_deleted(key@, why@, *final(self)),
    {
        reveal(App::not_deleted);
        self.desk.deleting.remove(key);
        let ghost base = *self;
        let mut s = cat("Could not delete ", key);
        s.append(": ");
        s.append(why);
        self.set_status(s);
        assert(base.said("Could not delete "@ + key@ + ": "@ + why@, *self));
    }

    /// What another machine having been read leaves of a state. The rows it last
    /// sent stay where it could not be: a dropped connection has not stopped its
    /// agents.
    #[verifier::opaque]
    pub open spec fn remote_heard(&self, host: String, snapshot: Snapshot, after: App) -> bool {
        exists|base: App|
            {
                &&& base == (App {
                    fleet: Fleet { remotes: base.fleet.remotes, errors: base.fleet.errors, ..self.fleet },
                    ..*self
                })
                &&& match snapshot {
                    Snapshot::Rows(rows) => {
                        &&& base.fleet.errors.items@ == unkeyed(self.fleet.errors.items@, host@)
                        &&& base.fleet.remotes.items@ == entered(self.fleet.remotes.items@, host, rows)
                    },
                    Snapshot::Failed(why) => {
                        &&& base.fleet.errors.items@ == entered(self.fleet.errors.items@, host, why)
                        &&& base.fleet.remotes == self.fleet.remotes
                    },
                }
                &&& #[trigger] base.with_remotes(after)
            }
    }

    fn on_remote(&mut self, host: String, snapshot: Snapshot)
        ensures
            old(self).remote_heard(host, snapshot, *final(self)),
    {
        reveal(App::remote_heard);
        match snapshot {
            Snapshot::Rows(rows) => {
                self.fleet.errors.remove(host.as_str());
                self.fleet.remotes.insert(host, rows);
            },
            Snapshot::Failed(why) => {
                self.fleet.errors.insert(host, why);
            },
        }
        let ghost base = *self;
        self.merge_remotes();
        assert(base.with_remotes(*self));
    }

    /// What an answer leaves of a state.
    pub open spec fn heard(&self, response: Response, after: App) -> bool {
        match response {
            Response::Discovered(sessions) => self.discovered(sessions, after),
            Response::Annotated(session) => {
                &&& after == (App { sessions: after.sessions, ..*self })
                &&& after.sessions@ == upserted(self.sessions@, session)
            },
            Response::Sessions(sessions, spend) => self.reread(sessions, spend, after),
            Response::LiveRows(rows, spend) => self.relived(rows@, spend, after),
            Response::Data(key, data) => if key@ == self.panel_key@ {
                after == (App { panel_data: Some(data), needs_redraw: true, ..*self })
            } else {
                after == *self
            },
            Response::UpdateAvailable(version) => after == (App {
                desk: Desk { update_available: Some(version), ..self.desk },
                needs_redraw: true,
                ..*self
            }),
            Response::PricingReady => {
                &&& after.effects@ == self.effects@.push(Effect::Refresh)
                &&& after == (App { effects: after.effects, ..*self })
            },
            Response::Terminated(key, result) => match result {
                Ok(()) => {
                    &&& after.effects@ == self.effects@.push(Effect::Refresh)
                    &&& (App { effects: after.effects, ..*self }).said("Termination signal sent"@, after)
                },
                Err(why) => self.said("Could not stop "@ + key@ + ": "@ + why@, after),
            },
            Response::Deleted(key, result) => match result {
                Ok(()) => self.deleted(key@, after),
                Err(why) => self.not_deleted(key@, why@, after),
            },
            Response::KeysSent(result) => self.said(
                match result {
                    Ok(()) => "Sent to the session's terminal"@,
                    Err(why) => why@,
                },
                after,
            ),
            Response::Remote(host, snapshot) => self.remote_heard(host, snapshot, after),
            Response::Insight(text) => after == (App {
                desk: Desk { insight: Some(text), insight_scroll: 0, ..self.desk },
                ..*self
            }),
        }
    }

    /// Take an answer of the workers.
    #[verifier::rlimit(60)]
    pub fn respond(&mut self, pulse: &mut Pulse, response: Response)
        ensures
            old(self).heard(response, *final(self)),
            *final(pulse) == pulse_after(*old(pulse), response),
    {
        match response {
            Response::Discovered(sessions) => {
                self.on_discovered(sessions);
                pulse.rows = true;
            },
            Response::Annotated(session) => {
                upsert(&mut self.sessions, session);
                pulse.annotated = true;
            },
            Response::Sessions(sessions, spend) => {
                self.on_sessions(sessions, spend);
                pulse.in_flight = false;
                pulse.annotated = false;
                pulse.rows = true;
            },
            Response::LiveRows(rows, spend) => {
                self.on_live_rows(rows, spend);
                pulse.in_flight = false;
                pulse.rows = true;
            },
            Response::Data(key, data) => {
                if same(key.as_str(), self.panel_key.as_str()) {
                    self.panel_data = Some(data);
                    self.needs_redraw = true;
                }
            },
            Response::UpdateAvailable(version) => {
                self.desk.update_available = Some(version);
                self.needs_redraw = true;
            },
            Response::PricingReady => {
                self.ask(Effect::Refresh);
                pulse.in_flight = true;
            },
            Response::Terminated(key, result) => match result {
                Ok(()) => {
                    self.ask(Effect::Refresh);
                    self.set_status("Termination signal sent".to_owned());
                    pulse.in_flight = true;
                },
                Err(why) => {
                    let mut s = cat("Could not stop ", key.as_str());
                    s.append(": ");
                    s.append(why.as_str());
                    self.set_status(s);
                },
            },
            Response::Deleted(key, result) => match result {
                Ok(()) => {
                    self.on_deleted(key.as_str());
                },
                Err(why) => {
                    self.on_not_deleted(key.as_str(), why.as_str());
                },
            },
            Response::KeysSent(result) => match result {
                Ok(()) => {
                    self.set_status("Sent to the session's terminal".to_owned());
                },
                Err(why) => {
                    self.set_status(why);
                },
            },
            Response::Remote(host, snapshot) => {
                self.on_remote(host, snapshot);
                pulse.rows = true;
            },
            Response::Insight(text) => {
                self.desk.insight = Some(text);
                self.desk.insight_scroll = 0;
            },
        }
    }

    /// What settling what was heard leaves of a state that rows have changed in.
    pub open spec fn settled(&self, annotated: bool, found: KeyMap<Collision>, after: App) -> bool {
        exists|heard: App, listed: App|
            {
                &&& #[trigger] self.hooks_heard(heard)
                &&& exists|contested: App| #[trigger] heard.contested_by(found, contested) && contested.relisted(annotated, listed)
                &&& after == (App { effects: after.effects, ..listed })
                &&& after.effects@ == (if self.serving is Some {
                    self.effects@.push(Effect::Publish)
                } else {
                    self.effects@
                })
                &&& #[trigger] listed.serving == self.serving
            }
    }

    /// What counting and sorting once leaves of a state where single rows were read.
    pub open spec fn relisted(&self, annotated: bool, after: App) -> bool {
        if annotated {
            exists|base: App|
                {
                    &&& base == (App { spend: base.spend, ..*self })
                    &&& adds_up(base.spend, self.sessions@)
                    &&& #[trigger] base.refiltered(base.cursor_name(), after)
                }
        } else {
            after == *self
        }
    }

    fn relist(&mut self, annotated: bool)
        ensures
            old(self).relisted(annotated, *final(self)),
    {
        if annotated {
            self.spend = compute_spend(&self.sessions);
            let ghost base = *self;
            self.refilter();
            assert(base.refiltered(base.cursor_name(), *self));
        }
    }

    /// Settle what was heard, once all of it is: a burst can hold hundreds of rows,
    /// which are counted and sorted once. A read replaces what the hooks said, so
    /// their word is taken again, and the page is shown what the table shows.
    ///
    /// `matured` says whether a prompt's grace has run out, and `found` is what the
    /// agents collide on, which each row is marked with. Returns whether the bells are to be looked at.
    pub fn settle(&mut self, pulse: &mut Pulse, matured: bool, found: KeyMap<Collision>) -> (r: bool)
        ensures
            r == (old(pulse).rows || matured),
            *final(pulse) == (Pulse { annotated: false, rows: false, ..*old(pulse) }),
            if old(pulse).annotated || old(pulse).rows || matured {
                old(self).settled(old(pulse).annotated, found, *final(self))
            } else {
                *final(self) == *old(self)
            },
    {
        let rows = pulse.rows || matured;
        let annotated = pulse.annotated;
        pulse.rows = false;
        pulse.annotated = false;
        if annotated || rows {
            self.apply_finished_agents();
            let ghost heard = *self;
            self.take_collisions(found);
            let ghost contested = *self;
            assert(heard.contested_by(found, contested));
            self.relist(annotated);
            let ghost listed = *self;
            self.feed_serving();
            assert(old(self).hooks_heard(heard));
            assert(listed.serving == old(self).serving);
        }
        rows
    }

    /// Whether `after` is this state once `texts` were said, one after the other.
    pub open spec fn said_all(&self, texts: Seq<String>, after: App) -> bool {
        let n = texts.len() as int;
        &&& after.toasts@.len() == n + self.toasts@.len()
        &&& forall|i: int|
            0 <= i < n ==> (#[trigger] after.toasts@[i]).text@ == texts[n - 1 - i]@ && after.toasts@[i].at == self.now
        &&& after.toasts@.skip(n) == self.toasts@
        &&& if n == 0 {
            after == *self
        } else {
            &&& after.status is Some
            &&& (after.status->0).0@ == texts[n - 1]@
            &&& (after.status->0).1 == self.now
            &&& after == (App { status: after.status, toasts: after.toasts, needs_redraw: true, ..*self })
        }
    }

    /// What is said on the way in about the agents' hooks: each one that was
    /// repointed, and that others want looking at.
    pub fn hooks_checked(&mut self, repaired: Vec<String>, problem: bool)
        ensures
            exists|mid: App|
                {
                    &&& #[trigger] old(self).said_all(repaired@, mid)
                    &&& if problem {
                        mid.said("Agent hooks need attention — press h"@, *final(self))
                    } else {
                        *final(self) == mid
                    }
                },
    {
        let mut i: usize = 0;
        assert(self.toasts@.skip(0) =~= self.toasts@);
        while i < repaired.len()
            invariant
                i <= repaired@.len(),
                old(self).said_all(repaired@.take(i as int), *self),
            decreases repaired@.len() - i,
        {
            let ghost before = self.toasts@;
            self.set_status(repaired[i].clone());
            proof {
                assert(self.toasts@.skip(i + 1) =~= before.skip(i as int));
                assert forall|k: int| 0 <= k < i + 1 implies (#[trigger] self.toasts@[k]).text@ == repaired@.take(
                    i + 1,
                )[i - k]@ && self.toasts@[k].at == old(self).now by {
                    if k > 0 {
                        assert(self.toasts@.skip(1)[k - 1] == before[k - 1]);
                        assert(repaired@.take(i as int)[i - k] == repaired@[i - k]);
                    }
                }
            }
            i += 1;
        }
        assert(repaired@.take(i as int) =~= repaired@);
        let ghost mid = *self;
        assert(old(self).said_all(repaired@, mid));
        if problem {
            self.set_status("Agent hooks need attention — press h".to_owned());
        }
    }

    /// Let the status line go once it has stood its time.
    pub fn expire_status(&mut self)
        ensures
            *final(self) == (match old(self).status {
                Some((_, at)) => if old(self).now > at + STATUS_STAYS {
                    App { status: None, needs_redraw: true, ..*old(self) }
                } else {
                    *old(self)
                },
                None => *old(self),
            }),
    {
        let over = match &self.status {
            Some((_, at)) => self.now > *at && self.now - *at > STATUS_STAYS,
            None => false,
        };
        if over {
            self.status = None;
            self.needs_redraw = true;
        }
    }

    /// Take a pasted image down once it has been seen: it is the confirmation that
    /// it went, and stays a little longer than words do.
    pub fn expire_pasted(&mut self)
        ensures
            *final(self) == (match old(self).desk.pasted_at {
                Some(at) => if old(self).now > at + PASTED_STAYS {
                    App { desk: Desk { pasted_at: None, ..old(self).desk }, needs_redraw: true, ..*old(self) }
                } else {
                    *old(self)
                },
                None => *old(self),
            }),
    {
        let over = match self.desk.pasted_at {
            Some(at) => self.now > at && self.now - at > PASTED_STAYS,
            None => false,
        };
        if over {
            self.desk.pasted_at = None;
            self.needs_redraw = true;
        }
    }

    /// Ask for a frame where a blink has flipped and something blinks.
    pub fn tick_blink(&mut self, pulse: &mut Pulse, lit: bool, attention: bool)
        ensures
            *final(pulse) == (Pulse { blink: lit, ..*old(pulse) }),
            *final(self) == (App {
                needs_redraw: old(self).needs_redraw || (lit != old(pulse).blink && attention),
                ..*old(self)
            }),
    {
        if lit != pulse.blink && attention {
            self.needs_redraw = true;
        }
        pulse.blink = lit;
    }

    /// A session has begun or ended: a row to find or forget now, unless an answer
    /// is still to come.
    pub fn on_lifecycle(&mut self, pulse: &mut Pulse)
        ensures
            if old(pulse).in_flight {
                *final(pulse) == *old(pulse) && *final(self) == *old(self)
            } else {
                &&& *final(pulse) == (Pulse { in_flight: true, last_refresh: old(self).now, ..*old(pulse) })
                &&& final(self).effects@ == old(self).effects@.push(Effect::Refresh)
                &&& *final(self) == (App { effects: final(self).effects, ..*old(self) })
            },
    {
        if pulse.in_flight {
            return;
        }
        self.ask(Effect::Refresh);
        pulse.in_flight = true;
        pulse.last_refresh = self.now;
    }

    /// Ask for the rows where that is due. What is running is looked at often, and
    /// every directory only where a watch saw something new, a file is still to
    /// become a session, or it has been long.
    ///
    /// `watched` says whether a watch saw something new, and `awaited` whether it
    /// has a file that is no session yet.
    pub fn refresh(&mut self, pulse: &mut Pulse, every: u64, watched: bool, awaited: bool)
        ensures
            if refresh_due(*old(pulse), old(self).now, every) {
                let walk = walk_due(*old(pulse), old(self).now, watched, awaited);
                &&& *final(pulse) == (Pulse {
                    in_flight: true,
                    last_refresh: old(self).now,
                    last_full_walk: if walk {
                        old(self).now
                    } else {
                        old(pulse).last_full_walk
                    },
                    ..*old(pulse)
                })
                &&& final(self).effects@ == old(self).effects@.push(
                    if walk {
                        Effect::Refresh
                    } else {
                        Effect::RefreshLive
                    },
                )
                &&& *final(self) == (App { effects: final(self).effects, ..*old(self) })
            } else {
                *final(pulse) == *old(pulse) && *final(self) == *old(self)
            },
    {
        if !due(pulse, self.now, every) {
            return;
        }
        pulse.last_refresh = self.now;
        pulse.in_flight = true;
        let past: u64 = self.now.saturating_sub(pulse.last_full_walk);
        let walk = watched || (past >= PENDING_WALK_INTERVAL && awaited) || past >= FULL_WALK_INTERVAL;
        if walk {
            pulse.last_full_walk = self.now;
            self.ask(Effect::Refresh);
        } else {
            self.ask(Effect::RefreshLive);
        }
    }

    /// How many milliseconds to wait for a key: never past the next time the rows
    /// are due, a frame's worth while a keystroke waits for its echo, and no more
    /// than a spinner's frame while one turns.
    pub fn wait(&self, pulse: &Pulse, every: u64, spinning: bool) -> (r: u64)
        ensures
            r == wait_for(*pulse, self.now, every, self.tab, spinning || self.share_opening is Some),
    {
        let idle: u64 = if self.tab == 0 {
            200
        } else {
            16
        };
        let idle: u64 = if (spinning || self.share_opening.is_some()) && idle > 100 {
            100
        } else {
            idle
        };
        let past: u64 = self.now.saturating_sub(pulse.last_refresh);
        let left: u64 = every.saturating_sub(past);
        if left < idle {
            left
        } else {
            idle
        }
    }

    /// Whether the loop is over, and with what: the exit code of the agent it was
    /// started for, where that has finished, or success where quitting was asked
    /// for.
    pub fn over(&self, hosted: Option<i32>) -> (r: Option<i32>)
        ensures
            r == (match hosted {
                Some(code) => Some(code),
                None => if self.should_quit {
                    Some(0i32)
                } else {
                    None
                },
            }),
    {
        match hosted {
            Some(code) => Some(code),
            None => if self.should_quit {
                Some(0)
            } else {
                None
            },
        }
    }
}

/// Where the loop is once an answer was taken.
pub open spec fn pulse_after(pulse: Pulse, response: Response) -> Pulse {
    match response {
        Response::Discovered(_) => Pulse { rows: true, ..pulse },
        Response::Annotated(_) => Pulse { annotated: true, ..pulse },
        Response::Sessions(_, _) => Pulse { in_flight: false, annotated: false, rows: true, ..pulse },
        Response::LiveRows(_, _) => Pulse { in_flight: false, rows: true, ..pulse },
        Response::PricingReady => Pulse { in_flight: true, ..pulse },
        Response::Terminated(_, result) => if result is Ok {
            Pulse { in_flight: true, ..pulse }
        } else {
            pulse
        },
        Response::Remote(_, _) => Pulse { rows: true, ..pulse },
        _ => pulse,
    }
}

/// How long it has been.
pub open spec fn elapsed(now: u64, since: u64) -> int {
    if now < since {
        0
    } else {
        now - since
    }
}

/// Whether the rows are due: it has been `every` milliseconds, and no answer is
/// still to come, so that a slow walk does not queue up behind itself.
pub open spec fn refresh_due(pulse: Pulse, now: u64, every: u64) -> bool {
    elapsed(now, pulse.last_refresh) >= every && !pulse.in_flight
}

/// Whether the rows are due.
pub fn due(pulse: &Pulse, now: u64, every: u64) -> (r: bool)
    ensures
        r == refresh_due(*pulse, now, every),
{
    now.saturating_sub(pulse.last_refresh) >= every && !pulse.in_flight
}

/// Whether every directory is to be walked.
pub open spec fn walk_due(pulse: Pulse, now: u64, watched: bool, awaited: bool) -> bool {
    let past = elapsed(now, pulse.last_full_walk);
    watched || (past >= PENDING_WALK_INTERVAL && awaited) || past >= FULL_WALK_INTERVAL
}

/// Whether the watch has to be asked for files that are no session yet: not where
/// it saw something new, and not so soon after the last walk.
pub fn asks_for_files(pulse: &Pulse, now: u64, watched: bool) -> (r: bool)
    ensures
        r == (!watched && elapsed(now, pulse.last_full_walk) >= PENDING_WALK_INTERVAL),
{
    !watched && now.saturating_sub(pulse.last_full_walk) >= PENDING_WALK_INTERVAL
}

/// How long to wait for a key.
pub open spec fn wait_for(pulse: Pulse, now: u64, every: u64, tab: usize, spinning: bool) -> int {
    let idle = if tab > 0 {
        16
    } else if spinning {
        100
    } else {
        200
    };
    let left = every - elapsed(now, pulse.last_refresh);
    if left < 0 {
        0
    } else if left < idle {
        left
    } else {
        idle
    }
}

/// Nothing is asked for while an answer is still to come, and after a walk was
/// asked for it takes an answer before the next.
pub proof fn one_refresh_at_a_time(pulse: Pulse, now: u64, every: u64, response: Response)
    ensures
        pulse.in_flight ==> !refresh_due(pulse, now, every),
        pulse.in_flight && !pulse_after(pulse, response).in_flight ==> response is Sessions || response is LiveRows,
{
}

/// Where the rows are due and it has been long since every directory was walked,
/// they are walked, whatever the watch saw.
pub proof fn a_missed_session_is_found(pulse: Pulse, now: u64, watched: bool, awaited: bool)
    requires
        elapsed(now, pulse.last_full_walk) >= FULL_WALK_INTERVAL,
    ensures
        walk_due(pulse, now, watched, awaited),
{
}

/// A wait never lasts past the time the rows are due.
pub proof fn a_wait_ends_in_time(pulse: Pulse, now: u64, every: u64, tab: usize, spinning: bool)
    requires
        now >= pulse.last_refresh,
        now + wait_for(pulse, now, every, tab, spinning) <= u64::MAX,
    ensures
        ({
            let w = wait_for(pulse, now, every, tab, spinning);
            &&& 0 <= w <= 200
            &&& !pulse.in_flight && w == every - elapsed(now, pulse.last_refresh) ==> refresh_due(
                pulse,
                (now + w) as u64,
                every,
            )
            &&& elapsed(now, pulse.last_refresh) < every ==> elapsed((now + w) as u64, pulse.last_refresh) <= every
        }),
{
}

/// When a provider's accounts are asked about next: when the first of them is due,
/// `delays` being in how many seconds each is, and after `interval` where there is
/// none. The cache answers for the others.
pub open spec fn soonest(delays: Seq<u64>, n: int) -> Option<u64>
    decreases n,
{
    if n <= 0 {
        None
    } else {
        match soonest(delays, n - 1) {
            Some(d) => Some(
                if delays[n - 1] < d {
                    delays[n - 1]
                } else {
                    d
                },
            ),
            None => Some(delays[n - 1]),
        }
    }
}

/// In how many seconds a provider's accounts are asked about next.
pub fn next_poll(delays: &Vec<u64>, interval: u64) -> (r: u64)
    ensures
        r == (match soonest(delays@, delays@.len() as int) {
            Some(d) => d,
            None => interval,
        }),
{
    let mut least: Option<u64> = None;
    let mut i: usize = 0;
    while i < delays.len()
        invariant
            i <= delays@.len(),
            least == soonest(delays@, i as int),
        decreases delays@.len() - i,
    {
        least = match least {
            Some(d) => Some(
                if delays[i] < d {
                    delays[i]
                } else {
                    d
                },
            ),
            None => Some(delays[i]),
        };
        i += 1;
    }
    match least {
        Some(d) => d,
        None => interval,
    }
}

/// No account is left waiting on another: none is due before the time that is
/// waited for.
pub proof fn no_account_waits_on_another(delays: Seq<u64>, n: int, k: int)
    requires
        0 <= k < n <= delays.len(),
    ensures
        soonest(delays, n) is Some,
        soonest(delays, n)->0 <= delays[k],
    decreases n,
{
    if k < n - 1 {
        no_account_waits_on_another(delays, n - 1, k);
    } else if n > 1 {
        no_account_waits_on_another(delays, n - 1, 0);
    }
}

/// A reading of a window of an account.
pub struct Sample {
    /// The agent's command.
    pub provider: String,
    pub profile: String,
    pub label: String,
    pub pct: u32,
    pub resets_at: Option<i64>,
    pub plan: Option<String>,
}

/// What a [`Sample`] says.
pub struct SampleView {
    pub provider: Seq<char>,
    pub profile: Seq<char>,
    pub label: Seq<char>,
    pub pct: u32,
    pub resets_at: Option<i64>,
    pub plan: Option<Seq<char>>,
}

impl View for Sample {
    type V = SampleView;

    open spec fn view(&self) -> SampleView {
        SampleView {
            provider: self.provider@,
            profile: self.profile@,
            label: self.label@,
            pct: self.pct,
            resets_at: self.resets_at,
            plan: match self.plan {
                Some(p) => Some(p@),
                None => None,
            },
        }
    }
}

/// What samples say.
pub open spec fn samples_say(v: Seq<Sample>) -> Seq<SampleView> {
    v.map_values(|s: Sample| s@)
}

/// A reading of one window.
pub open spec fn sample_of(provider: Seq<char>, profile: Seq<char>, plan: Option<String>, w: Window) -> SampleView {
    SampleView {
        provider,
        profile,
        label: w.label@,
        pct: w.pct,
        resets_at: w.resets_at,
        plan: match plan {
            Some(p) => Some(p@),
            None => None,
        },
    }
}

/// The readings of one account. One that is signed out or throttled has none: a zero
/// would look like an account that used nothing.
pub open spec fn account_samples(provider: Seq<char>, account: ProfileQuota) -> Seq<SampleView> {
    match account.status {
        ProviderStatus::Known(q) => q.windows@.map_values(|w: Window| sample_of(provider, account.profile@, q.plan, w)),
        _ => Seq::empty(),
    }
}

/// The readings of the first `n` accounts.
pub open spec fn provider_samples(provider: Seq<char>, accounts: Seq<ProfileQuota>, n: int) -> Seq<SampleView>
    decreases n,
{
    if n <= 0 {
        Seq::empty()
    } else {
        provider_samples(provider, accounts, n - 1) + account_samples(provider, accounts[n - 1])
    }
}

fn put_samples(out: &mut Vec<Sample>, provider: &str, accounts: &Vec<ProfileQuota>)
    ensures
        samples_say(final(out)@) == samples_say(old(out)@) + provider_samples(
            provider@,
            accounts@,
            accounts@.len() as int,
        ),
{
    let ghost was = samples_say(out@);
    let mut i: usize = 0;
    assert(was + provider_samples(provider@, accounts@, 0) =~= was);
    while i < accounts.len()
        invariant
            i <= accounts@.len(),
            samples_say(out@) == was + provider_samples(provider@, accounts@, i as int),
        decreases accounts@.len() - i,
    {
        let account = &accounts[i];
        let ghost before = samples_say(out@);
        match &account.status {
            ProviderStatus::Known(q) => {
                let ghost mine = account_samples(provider@, *account);
                let mut k: usize = 0;
                assert(before + mine.take(0) =~= before);
                while k < q.windows.len()
                    invariant
                        k <= q.windows@.len(),
                        account.status == ProviderStatus::Known(*q),
                        mine == account_samples(provider@, *account),
                        mine.len() == q.windows@.len(),
                        samples_say(out@) == before + mine.take(k as int),
                    decreases q.windows@.len() - k,
                {
                    let w = &q.windows[k];
                    let one = Sample {
                        provider: provider.to_owned(),
                        profile: account.profile.clone(),
                        label: w.label.clone(),
                        pct: w.pct,
                        resets_at: w.resets_at,
                        plan: copy_text(&q.plan),
                    };
                    assert(one@ == mine[k as int]);
                    let ghost had = out@;
                    out.push(one);
                    assert(samples_say(out@) =~= samples_say(had).push(mine[k as int]));
                    assert(samples_say(out@) =~= before + mine.take(k + 1));
                    k += 1;
                }
                assert(mine.take(k as int) =~= mine);
            },
            _ => {
                assert(before + account_samples(provider@, *account) =~= before);
            },
        }
        assert(samples_say(out@) =~= was + provider_samples(provider@, accounts@, i + 1));
        i += 1;
    }
}

/// Every window of every account, to be written into the log of what was used.
pub fn record_burn(quota: &Quota) -> (r: Vec<Sample>)
    ensures
        samples_say(r@) == provider_samples(
            quota.names.command@,
            quota.claude@,
            quota.claude@.len() as int,
        ) + provider_samples(
            "codex"@,
            quota.codex@,
            quota.codex@.len() as int,
        ),
{
    let mut out: Vec<Sample> = Vec::new();
    assert(samples_say(out@) =~= Seq::empty());
    put_samples(&mut out, quota.names.command.as_str(), &quota.claude);
    assert(samples_say(out@) =~= provider_samples(
        quota.names.command@,
        quota.claude@,
        quota.claude@.len() as int,
    ));
    put_samples(&mut out, "codex", &quota.codex);
    out
}

/// A column that says nothing on most machines.
#[derive(Debug, Clone, Copy, PartialEq, Eq, Structural)]
pub enum MachineColumn {
    /// The machine, where only this one is read.
    Host,
    /// The user, where only this one's sessions are in view.
    User,
    /// The account, where there is one.
    Profile,
}

/// The columns that are left out, since every row would say the same in them.
pub fn hidden_columns(hosts: usize, other_homes: usize, profiles: usize) -> (r: Vec<MachineColumn>)
    ensures
        forall|c: MachineColumn| #[trigger]
            r@.contains(c) <==> match c {
                MachineColumn::Host => hosts == 0,
                MachineColumn::User => other_homes == 0,
                MachineColumn::Profile => profiles <= 1,
            },
        r@.no_duplicates(),
{
    let mut v: Vec<MachineColumn> = Vec::new();
    if hosts == 0 {
        v.push(MachineColumn::Host);
        assert(v@[0] == MachineColumn::Host);
    }
    let ghost a = v@;
    if other_homes == 0 {
        v.push(MachineColumn::User);
        assert(v@[v@.len() - 1] == MachineColumn::User);
    }
    let ghost b = v@;
    if profiles <= 1 {
        v.push(MachineColumn::Profile);
        assert(v@[v@.len() - 1] == MachineColumn::Profile);
    }
    assert forall|c: MachineColumn| #[trigger] v@.contains(c) <==> match c {
        MachineColumn::Host => hosts == 0,
        MachineColumn::User => other_homes == 0,
        MachineColumn::Profile => profiles <= 1,
    } by {
        assert(hosts == 0 ==> v@[0] == MachineColumn::Host);
        assert(other_homes == 0 ==> v@[a.len() as int] == MachineColumn::User);
        assert(profiles <= 1 ==> v@[b.len() as int] == MachineColumn::Profile);
    }
    v
}

/// What is said on the way out of the agents that are left running.
pub open spec fn farewell_text(n: nat) -> Seq<char> {
    dec(n) + " agent"@ + (if n == 1 {
        ""@
    } else {
        "s"@
    }) + " still running in rmux; `cctop` then `t` to get back to "@ + (if n == 1 {
        "it"@
    } else {
        "them"@
    }) + "."@
}

/// What is said on the way out of the agents that are left running, where there are
/// any.
pub fn farewell(left_running: usize) -> (r: Option<String>)
    ensures
        match r {
            Some(s) => left_running > 0 && s@ == farewell_text(left_running as nat),
            None => left_running == 0,
        },
{
    if left_running == 0 {
        return None;
    }
    let one = left_running == 1;
    let mut s = cat(decimal(left_running as u128).as_str(), " agent");
    s.append(
        if one {
            ""
        } else {
            "s"
        },
    );
    s.append(" still running in rmux; `cctop` then `t` to get back to ");
    s.append(
        if one {
            "it"
        } else {
            "them"
        },
    );
    s.append(".");
    Some(s)
}

/// Deleting a key takes out the sessions of that key and leaves the others in order.
pub proof fn only_the_deleted_go(sessions: Seq<Session>, key: Seq<char>)
    ensures
        without_key(sessions, key) == sessions.filter(|s: Session| key_of(s) != key),
    decreases sessions.len(),
{
    reveal(Seq::filter);
    if sessions.len() > 0 {
        only_the_deleted_go(sessions.drop_last(), key);
    }
}

proof fn samples_stay(provider: Seq<char>, accounts: Seq<ProfileQuota>, n: int, a: int, w: int)
    requires
        0 <= a < n <= accounts.len(),
        accounts[a].status is Known,
        0 <= w < accounts[a].status->Known_0.windows@.len(),
    ensures
        provider_samples(provider, accounts, n).contains(
            sample_of(provider, accounts[a].profile@, accounts[a].status->Known_0.plan, accounts[a].status->Known_0.windows@[w]),
        ),
    decreases n,
{
    let one = sample_of(
        provider,
        accounts[a].profile@,
        accounts[a].status->Known_0.plan,
        accounts[a].status->Known_0.windows@[w],
    );
    let before = provider_samples(provider, accounts, n - 1);
    let own = account_samples(provider, accounts[n - 1]);
    let all = provider_samples(provider, accounts, n);
    assert(all == before + own);
    if a < n - 1 {
        samples_stay(provider, accounts, n - 1, a, w);
        let k = choose|k: int| 0 <= k < before.len() && before[k] == one;
        assert(all[k] == one);
    } else {
        assert(own[w] == one);
        assert(all[before.len() + w] == one);
    }
}

proof fn samples_are_of_an_account(provider: Seq<char>, accounts: Seq<ProfileQuota>, n: int, k: int)
    requires
        0 <= n <= accounts.len(),
        0 <= k < provider_samples(provider, accounts, n).len(),
    ensures
        exists|a: int, w: int|
            #![trigger accounts[a].status->Known_0.windows@[w]]
            {
                let s = provider_samples(provider, accounts, n)[k];
                &&& 0 <= a < n
                &&& accounts[a].status is Known
                &&& 0 <= w < accounts[a].status->Known_0.windows@.len()
                &&& s.provider == provider
                &&& s.profile == accounts[a].profile@
                &&& s.label == accounts[a].status->Known_0.windows@[w].label@
                &&& s.pct == accounts[a].status->Known_0.windows@[w].pct
                &&& s.resets_at == accounts[a].status->Known_0.windows@[w].resets_at
            },
    decreases n,
{
    if n > 0 {
        let before = provider_samples(provider, accounts, n - 1);
        let own = account_samples(provider, accounts[n - 1]);
        let all = provider_samples(provider, accounts, n);
        assert(all == before + own);
        if k < before.len() {
            samples_are_of_an_account(provider, accounts, n - 1, k);
            assert(all[k] == before[k]);
        } else {
            let w = k - before.len();
            assert(all[k] == own[w]);
            assert(own[w] == sample_of(
                provider,
                accounts[n - 1].profile@,
                accounts[n - 1].status->Known_0.plan,
                accounts[n - 1].status->Known_0.windows@[w],
            ));
        }
    }
}

/// Every window of every account that answered is sampled, with its own account, name,
/// share and end; nothing else is: an account that did not answer has no sample.
pub proof fn every_window_is_sampled(provider: Seq<char>, accounts: Seq<ProfileQuota>, a: int, w: int, k: int)
    ensures
        0 <= a < accounts.len() && accounts[a].status is Known && 0 <= w < accounts[a].status->Known_0.windows@.len()
            ==> exists|s: SampleView| #[trigger]
            provider_samples(provider, accounts, accounts.len() as int).contains(s) && s.provider == provider && s.profile
                == accounts[a].profile@ && s.label == accounts[a].status->Known_0.windows@[w].label@ && s.pct
                == accounts[a].status->Known_0.windows@[w].pct,
        0 <= k < provider_samples(provider, accounts, accounts.len() as int).len() ==> exists|a: int, w: int|
            #![trigger accounts[a].status->Known_0.windows@[w]]
            {
                let s = provider_samples(provider, accounts, accounts.len() as int)[k];
                &&& 0 <= a < accounts.len()
                &&& accounts[a].status is Known
                &&& 0 <= w < accounts[a].status->Known_0.windows@.len()
                &&& s.profile == accounts[a].profile@
                &&& s.label == accounts[a].status->Known_0.windows@[w].label@
                &&& s.pct == accounts[a].status->Known_0.windows@[w].pct
                &&& s.resets_at == accounts[a].status->Known_0.windows@[w].resets_at
            },
{
    let n = accounts.len() as int;
    if 0 <= a < n && accounts[a].status is Known && 0 <= w < accounts[a].status->Known_0.windows@.len() {
        samples_stay(provider, accounts, n, a, w);
    }
    if 0 <= k < provider_samples(provider, accounts, n).len() {
        samples_are_of_an_account(provider, accounts, n, k);
    }
}

/// The rows are due once it has been that long and nothing is still to come, and then
/// they stay due until they are asked for.
pub proof fn rows_fall_due(pulse: Pulse, now: u64, every: u64, later: u64)
    requires
        now <= later,
        pulse.last_refresh <= now,
    ensures
        refresh_due(pulse, now, every) ==> refresh_due(pulse, later, every),
        !pulse.in_flight && now - pulse.last_refresh >= every ==> refresh_due(pulse, now, every),
        now - pulse.last_refresh < every ==> !refresh_due(pulse, now, every),
        pulse.in_flight ==> !refresh_due(pulse, now, every),
{
}

/// What was read of a transcript is shown where it is still the one the panels are of,
/// and an answer that comes too late changes nothing.
pub proof fn a_late_answer_is_not_shown(app: App, key: String, data: SessionData, after: App)
    requires
        app.heard(Response::Data(key, data), after),
    ensures
        key@ == app.panel_key@ ==> after.panel_data == Some(data),
        key@ != app.panel_key@ ==> after == app,
        after.panel_key == app.panel_key,
        after.sessions == app.sessions,
{
}

/// An agent that could not be stopped is said not to have been, and the rows are read
/// again only where one was.
pub proof fn a_stop_is_said_as_it_went(app: App, key: String, why: String, stopped: App, failed: App)
    requires
        app.heard(Response::Terminated(key, Ok(())), stopped),
        app.heard(Response::Terminated(key, Err(why)), failed),
    ensures
        stopped.effects@ == app.effects@.push(Effect::Refresh),
        (stopped.status->0).0@ == "Termination signal sent"@,
        failed.effects@ == app.effects@,
        (failed.status->0).0@ == "Could not stop "@ + key@ + ": "@ + why@,
{
}

/// A machine that answers has its rows replaced and is no longer said to be down, and no
/// other machine is touched.
pub proof fn a_machine_that_answers_is_up(app: App, host: String, rows: Vec<Session>, after: App, other: Seq<char>)
    requires
        app.remote_heard(host, Snapshot::Rows(rows), after),
        other != host@,
    ensures
        exists|base: App| #[trigger]
            base.with_remotes(after) && base.fleet.remotes.at(host@) == Some(rows) && base.fleet.errors.at(host@) is None
                && base.fleet.remotes.at(other) == app.fleet.remotes.at(other) && base.fleet.errors.at(other)
                == app.fleet.errors.at(other),
{
    reveal(App::remote_heard);
    crate::keys::what_is_entered_is_found(app.fleet.remotes.items@, host, rows, other);
    crate::keys::what_is_taken_out_is_gone(app.fleet.errors.items@, host@, other);
}

/// A machine that fails keeps the rows it had and is said to be down with why, and no
/// other machine is touched.
pub proof fn a_machine_that_fails_is_down(app: App, host: String, why: String, after: App, other: Seq<char>)
    requires
        app.remote_heard(host, Snapshot::Failed(why), after),
        other != host@,
    ensures
        exists|base: App| #[trigger]
            base.with_remotes(after) && base.fleet.remotes == app.fleet.remotes && base.fleet.errors.at(host@) == Some(why)
                && base.fleet.errors.at(other) == app.fleet.errors.at(other),
{
    reveal(App::remote_heard);
    crate::keys::what_is_entered_is_found(app.fleet.errors.items@, host, why, other);
}

} // verus!
