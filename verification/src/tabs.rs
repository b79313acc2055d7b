//! Tabs and the panes in them.
//!
//! A tab holds the panes it shows, or stands for a multiplexer session that no
//! client of this process is on. The second kind is *detached*: it holds no pane
//! until somebody looks at it.

use vstd::prelude::*;

use crate::model::copy_text;
use crate::order::{in_order, keys_of, lists_each, order_by};

verus! {

/// A terminal with an agent in it.
pub struct Pane {
    /// The process hosted here.
    pub pid: u32,
    /// The agent's own process, where what is hosted is only a client of it.
    pub agent_pid: Option<u32>,
    pub label: String,
    /// The session name a resumed agent goes by before it is found.
    pub resumed: Option<String>,
    /// The multiplexer session behind the pane.
    pub rmux: Option<String>,
    /// The account the agent runs as.
    pub profile: Option<String>,
    /// The agent was started from here, and is to be ended from here.
    pub owned: bool,
    /// The pane is being recorded, so its client stays.
    pub recording: bool,
}

impl Pane {
    /// A pane onto the process `pid`, which was not started from here.
    pub fn new(label: String, pid: u32) -> (r: Pane)
        ensures
            r == (Pane {
                pid,
                agent_pid: None,
                label,
                resumed: None,
                rmux: None,
                profile: None,
                owned: false,
                recording: false,
            }),
    {
        Pane { pid, agent_pid: None, label, resumed: None, rmux: None, profile: None, owned: false, recording: false }
    }

    /// The agent's process.
    pub open spec fn agent_of(&self) -> u32 {
        match self.agent_pid {
            Some(p) => p,
            None => self.pid,
        }
    }

    /// The agent's process.
    pub fn agent(&self) -> (r: u32)
        ensures
            r == self.agent_of(),
    {
        match self.agent_pid {
            Some(p) => p,
            None => self.pid,
        }
    }
}

/// A session of the multiplexer.
pub struct Running {
    pub name: String,
    pub pid: Option<u32>,
    pub activity: Option<i64>,
    pub label: Option<String>,
    pub profile: Option<String>,
    /// Where it was last left in the bar.
    pub order: Option<u64>,
    /// When it was started.
    pub created: u64,
}

/// What a tab knows of the multiplexer session it stands for.
pub struct Shared {
    pub name: String,
    pub label: String,
    pub pid: Option<u32>,
    pub activity: Option<i64>,
    pub profile: Option<String>,
}

/// A tab of the bar.
pub struct Tab {
    pub panes: Vec<Pane>,
    /// Which pane has the keyboard.
    pub focus: usize,
    pub shared: Option<Shared>,
}

/// What a tab standing for `agent` knows of it.
pub open spec fn shared_of(agent: Running) -> Shared {
    Shared {
        name: agent.name,
        label: match agent.label {
            Some(l) => l,
            None => agent.name,
        },
        pid: agent.pid,
        activity: agent.activity,
        profile: agent.profile,
    }
}

impl Tab {
    /// A tab of one pane.
    pub fn new(pane: Pane) -> (r: Tab)
        ensures
            r.panes@ == seq![pane],
            r.focus == 0,
            r.shared is None,
    {
        let mut panes: Vec<Pane> = Vec::new();
        panes.push(pane);
        assert(panes@ =~= seq![pane]);
        Tab { panes, focus: 0, shared: None }
    }

    /// A tab standing for a multiplexer session.
    pub fn shared(agent: &Running) -> (r: Tab)
        ensures
            r.panes@.len() == 0,
            r.focus == 0,
            r.shared == Some(shared_of(*agent)),
    {
        let label = match &agent.label {
            Some(l) => l.clone(),
            None => agent.name.clone(),
        };
        Tab {
            panes: Vec::new(),
            focus: 0,
            shared: Some(
                Shared {
                    name: agent.name.clone(),
                    label,
                    pid: agent.pid,
                    activity: agent.activity,
                    profile: copy_text(&agent.profile),
                },
            ),
        }
    }

    /// Whether the tab stands for a session no client of ours is on.
    pub open spec fn apart(&self) -> bool {
        self.panes@.len() == 0 && self.shared is Some
    }

    /// Whether the tab stands for a session no client of ours is on.
    pub fn detached(&self) -> (r: bool)
        ensures
            r == self.apart(),
    {
        self.panes.len() == 0 && self.shared.is_some()
    }

    /// What the bar calls the tab.
    pub open spec fn name(&self) -> Seq<char> {
        if self.focus < self.panes@.len() {
            self.panes@[self.focus as int].label@
        } else {
            match self.shared {
                Some(s) => s.label@,
                None => Seq::empty(),
            }
        }
    }

    /// What the bar calls the tab.
    pub fn title(&self) -> (r: String)
        ensures
            r@ == self.name(),
    {
        if self.focus < self.panes.len() {
            self.panes[self.focus].label.clone()
        } else {
            match &self.shared {
                Some(s) => s.label.clone(),
                None => String::new(),
            }
        }
    }

    /// Whether leaving the tab gives its client up: one pane, on a multiplexer
    /// session, and not being recorded.
    pub open spec fn lets_go(&self) -> bool {
        self.panes@.len() == 1 && self.panes@[0].rmux is Some && !self.panes@[0].recording
    }

    /// What the tab is once its client has been given up.
    pub open spec fn let_go(&self, after: Tab) -> bool {
        if self.lets_go() {
            let p = self.panes@[0];
            &&& after.panes@.len() == 0
            &&& after.focus == 0
            &&& after.shared == Some(
                Shared {
                    name: p.rmux->0,
                    label: p.label,
                    pid: Some(p.agent_of()),
                    activity: None,
                    profile: p.profile,
                },
            )
        } else {
            after == *self
        }
    }

    /// Give the tab's client up, where it can be taken again.
    pub fn detach(&mut self)
        ensures
            old(self).let_go(*final(self)),
    {
        if self.panes.len() != 1 {
            return;
        }
        let shared = match (&self.panes[0].rmux, self.panes[0].recording) {
            (Some(name), false) => Shared {
                name: name.clone(),
                label: self.panes[0].label.clone(),
                pid: Some(self.panes[0].agent()),
                activity: None,
                profile: copy_text(&self.panes[0].profile),
            },
            _ => {
                return;
            },
        };
        self.panes = Vec::new();
        self.focus = 0;
        self.shared = Some(shared);
    }

    /// Take a client onto the session the tab stands for.
    pub fn attach(&mut self, pane: Pane)
        ensures
            final(self).panes@ == seq![pane],
            final(self).focus == 0,
            final(self).shared is None,
    {
        *self = Tab::new(pane);
    }

    /// The multiplexer sessions in the tab.
    pub open spec fn names(&self) -> Seq<Seq<char>> {
        let own = pane_names(self.panes@);
        match self.shared {
            Some(s) => own.push(s.name@),
            None => own,
        }
    }

    /// The multiplexer sessions in the tab.
    pub fn sessions(&self) -> (r: Vec<String>)
        ensures
            r@.map_values(|s: String| s@) == self.names(),
    {
        let mut out: Vec<String> = Vec::new();
        let mut i: usize = 0;
        assert(out@.map_values(|s: String| s@) =~= pane_names(self.panes@.take(0)));
        while i < self.panes.len()
            invariant
                i <= self.panes@.len(),
                out@.map_values(|s: String| s@) == pane_names(self.panes@.take(i as int)),
            decreases self.panes@.len() - i,
        {
            let ghost was = out@;
            proof {
                assert(self.panes@.take(i + 1).drop_last() =~= self.panes@.take(i as int));
                assert(self.panes@.take(i + 1).last() == self.panes@[i as int]);
            }
            match &self.panes[i].rmux {
                Some(name) => {
                    out.push(name.clone());
                    assert(out@.map_values(|s: String| s@) =~= was.map_values(|s: String| s@).push(name@));
                },
                None => {},
            }
            i += 1;
        }
        assert(self.panes@.take(i as int) =~= self.panes@);
        let ghost was = out@;
        match &self.shared {
            Some(s) => {
                out.push(s.name.clone());
                assert(out@.map_values(|s: String| s@) =~= was.map_values(|s: String| s@).push(s.name@));
            },
            None => {},
        }
        out
    }
}

/// The multiplexer sessions behind `panes`.
pub open spec fn pane_names(panes: Seq<Pane>) -> Seq<Seq<char>>
    decreases panes.len(),
{
    if panes.len() == 0 {
        Seq::empty()
    } else {
        let before = pane_names(panes.drop_last());
        match panes.last().rmux {
            Some(n) => before.push(n@),
            None => before,
        }
    }
}

/// What the sessions are put in order by: the arranged ones first, in the order
/// they were left in, and the others oldest first behind them.
pub open spec fn bar_key(agent: Running) -> Seq<u64> {
    match agent.order {
        Some(at) => seq![0u64, at],
        None => seq![1u64, agent.created],
    }
}

/// The places of `running` in the order of the bar.
pub fn in_tab_order_of(running: &Vec<Running>) -> (r: Vec<usize>)
    ensures
        lists_each(r@, running@.len() as int),
        in_order(r@, running@.map_values(|a: Running| bar_key(a)), true),
{
    let mut keys: Vec<Vec<u64>> = Vec::new();
    let mut i: usize = 0;
    while i < running.len()
        invariant
            i <= running@.len(),
            keys@.len() == i,
            forall|j: int| 0 <= j < i ==> (#[trigger] keys@[j])@ == bar_key(running@[j]),
        decreases running@.len() - i,
    {
        let mut key: Vec<u64> = Vec::new();
        match running[i].order {
            Some(at) => {
                key.push(0);
                key.push(at);
            },
            None => {
                key.push(1);
                key.push(running[i].created);
            },
        }
        assert(key@ =~= bar_key(running@[i as int]));
        keys.push(key);
        i += 1;
    }
    assert(keys_of(keys@) =~= running@.map_values(|a: Running| bar_key(a)));
    order_by(&keys, true)
}

/// The sessions behind panes are those the panes have, in their order.
pub proof fn a_pane_is_behind_its_own_session(panes: Seq<Pane>)
    ensures
        pane_names(panes) == panes.filter(|p: Pane| p.rmux is Some).map_values(|p: Pane| p.rmux->0@),
    decreases panes.len(),
{
    reveal(Seq::filter);
    if panes.len() > 0 {
        a_pane_is_behind_its_own_session(panes.drop_last());
        let kept = panes.drop_last().filter(|p: Pane| p.rmux is Some);
        if panes.last().rmux is Some {
            assert(pane_names(panes) =~= kept.push(panes.last()).map_values(|p: Pane| p.rmux->0@));
        }
    } else {
        assert(pane_names(panes) =~= panes.filter(|p: Pane| p.rmux is Some).map_values(|p: Pane| p.rmux->0@));
    }
}

/// Sessions that were arranged stand before those that were not, in the order they were
/// left in; the others stand from the oldest to the newest.
pub proof fn arranged_sessions_stand_first(a: Running, b: Running)
    ensures
        a.order is Some && b.order is None ==> crate::order::lex_lt(bar_key(a), bar_key(b)),
        a.order is Some && b.order is Some && a.order->0 < b.order->0 ==> crate::order::lex_lt(bar_key(a), bar_key(b)),
        a.order is None && b.order is None && a.created < b.created ==> crate::order::lex_lt(bar_key(a), bar_key(b)),
{
    reveal_with_fuel(crate::order::lex_lt, 3);
    let (x, y) = (bar_key(a), bar_key(b));
    assert(x.skip(1)[0] == x[1] && y.skip(1)[0] == y[1]);
}

/// A tab is called by the pane that has the keyboard, and by the session it stands for
/// where it has no pane.
pub proof fn a_tab_is_called_by_its_focus(tab: Tab)
    ensures
        tab.focus < tab.panes@.len() ==> tab.name() == tab.panes@[tab.focus as int].label@,
        tab.panes@.len() == 0 && tab.shared is Some ==> tab.name() == tab.shared->0.label@,
{
}

/// A tab that gives its client up stands for the same session under the same name, agent
/// and account; one with two panes, with a pane of no session, or being recorded, gives
/// nothing up.
pub proof fn what_is_let_go_is_still_known(tab: Tab, after: Tab)
    requires
        tab.let_go(after),
    ensures
        tab.panes@.len() == 1 && tab.panes@[0].rmux is Some && !tab.panes@[0].recording ==> {
            &&& after.panes@.len() == 0
            &&& after.shared is Some
            &&& after.shared->0.name == tab.panes@[0].rmux->0
            &&& after.shared->0.label == tab.panes@[0].label
            &&& after.shared->0.profile == tab.panes@[0].profile
            &&& after.shared->0.pid == Some(tab.panes@[0].agent_of())
        },
        tab.panes@.len() != 1 ==> after == tab,
        tab.panes@.len() == 1 && (tab.panes@[0].rmux is None || tab.panes@[0].recording) ==> after == tab,
{
}

/// A tab that is made for a session knows of it what the multiplexer said.
pub proof fn a_tab_knows_its_session(agent: Running)
    ensures
        shared_of(agent).name == agent.name,
        agent.label matches Some(l) ==> shared_of(agent).label == l,
        agent.label is None ==> shared_of(agent).label == agent.name,
        shared_of(agent).pid == agent.pid,
        shared_of(agent).activity == agent.activity,
        shared_of(agent).profile == agent.profile,
{
}

} // verus!
