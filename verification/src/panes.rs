//! The workspace tab bar: tabs, panes, and which of them is on screen.
//!
//! Tab 0 is the dashboard and never closes, so every number here is one past the
//! index into [`App::tabs`]. The arithmetic that keeps the cursor, the bar and
//! the focused pane agreeing after a close, a drag or a switch is here, and so
//! are the tabs reconciled from the multiplexer, which obey the same rules.

use vstd::prelude::*;

use crate::app::{App, Effect};
use crate::keys::{listed, KeySet};
use crate::model::copy_text;
use crate::tabs::{bar_key, in_tab_order_of, pane_names, shared_of, Pane, Running, Shared, Tab};
use crate::order::{in_order, lists_each};
use crate::text::{cat, same};
use crate::wrap::{clamped, step_to, stepped, stepping_back_returns, walk};

verus! {

/// How often the tab bar is reconciled against the sessions on this machine.
pub const SHARE_EVERY: u64 = 2000;

/// The tabs that stay.
pub open spec fn kept_by(tabs: Seq<Tab>, keep: Seq<bool>) -> Seq<Tab>
    decreases tabs.len(),
{
    if tabs.len() == 0 {
        Seq::empty()
    } else {
        let before = kept_by(tabs.drop_last(), keep.drop_last());
        if keep.last() {
            before.push(tabs.last())
        } else {
            before
        }
    }
}

/// The numbers of the tabs that go, ascending.
pub open spec fn gone_by(keep: Seq<bool>) -> Seq<usize>
    decreases keep.len(),
{
    if keep.len() == 0 {
        Seq::empty()
    } else {
        let before = gone_by(keep.drop_last());
        if keep.last() {
            before
        } else {
            before.push(keep.len() as usize)
        }
    }
}

/// How many of `gone` are below `was`.
pub open spec fn count_below(gone: Seq<usize>, was: int) -> int
    decreases gone.len(),
{
    if gone.len() == 0 {
        0
    } else {
        count_below(gone.drop_last(), was) + if gone.last() < was {
            1int
        } else {
            0int
        }
    }
}

/// Where the view goes from tab `was` once `gone` have left the bar and
/// `remaining` are in it.
///
/// A view on a later tab slides down by however many went before it. A view on a
/// tab that went lands on the neighbour that has its number now, or on the last
/// one there is.
pub open spec fn landing_spot(was: int, gone: Seq<usize>, remaining: int) -> int {
    let slid = was - count_below(gone, was);
    if (exists|i: int| 0 <= i < gone.len() && gone[i] == was) && slid > remaining {
        remaining
    } else {
        slid
    }
}

fn split(tabs: Vec<Tab>, keep: &Vec<bool>) -> (r: (Vec<Tab>, Vec<usize>))
    requires
        tabs@.len() == keep@.len(),
    ensures
        r.0@ == kept_by(tabs@, keep@),
        r.1@ == gone_by(keep@),
{
    let ghost was = tabs@;
    let n: usize = tabs.len();
    let mut rest = tabs;
    let mut kept: Vec<Tab> = Vec::new();
    let mut gone: Vec<usize> = Vec::new();
    let mut i: usize = 0;
    assert(was.take(0) =~= Seq::<Tab>::empty());
    assert(was.skip(0) =~= was);
    while i < n
        invariant
            i <= n,
            n == was.len(),
            n == keep@.len(),
            rest@ == was.skip(i as int),
            kept@ == kept_by(was.take(i as int), keep@.take(i as int)),
            gone@ == gone_by(keep@.take(i as int)),
        decreases n - i,
    {
        let tab = rest.remove(0);
        assert(rest@ =~= was.skip(i + 1));
        proof {
            assert(was.take(i + 1).drop_last() =~= was.take(i as int));
            assert(keep@.take(i + 1).drop_last() =~= keep@.take(i as int));
            assert(was.take(i + 1).last() == tab);
            assert(keep@.take(i + 1).last() == keep@[i as int]);
        }
        if keep[i] {
            kept.push(tab);
        } else {
            gone.push(i + 1);
        }
        i += 1;
    }
    assert(was.take(i as int) =~= was);
    assert(keep@.take(i as int) =~= keep@);
    (kept, gone)
}

/// Of the tabs that go, those below number `was` are at most all below it; the
/// rest of them are the tabs that stay below it.
proof fn below(tabs: Seq<Tab>, keep: Seq<bool>, was: int)
    requires
        tabs.len() == keep.len(),
        keep.len() <= usize::MAX,
        was >= 0,
    ensures
        count_below(gone_by(keep), was) + kept_by(tabs.take(upto(was, keep)), keep.take(upto(was, keep))).len() == upto(
            was,
            keep,
        ),
        0 <= count_below(gone_by(keep), was) <= was,
        (exists|i: int| 0 <= i < gone_by(keep).len() && gone_by(keep)[i] == was) <==> 1 <= was <= keep.len() && !keep[was
            - 1],
    decreases keep.len(),
{
    if keep.len() > 0 {
        let t = tabs.drop_last();
        let k = keep.drop_last();
        below(t, k, was);
        let n = keep.len() as int;
        let g = gone_by(k);
        if was > n {
            assert(tabs.take(upto(was, keep)) =~= tabs);
            assert(keep.take(upto(was, keep)) =~= keep);
            assert(t.take(upto(was, k)) =~= t);
            assert(k.take(upto(was, k)) =~= k);
        } else {
            assert(upto(was, keep) == upto(was, k));
            assert(tabs.take(upto(was, keep)) =~= t.take(upto(was, k)));
            assert(keep.take(upto(was, keep)) =~= k.take(upto(was, k)));
        }
        if !keep.last() {
            let now = gone_by(keep);
            assert(now.drop_last() =~= g);
            assert(now.last() == n as usize);
            if was == n {
                assert(now[now.len() - 1] == was);
            }
            if exists|i: int| 0 <= i < g.len() && g[i] == was {
                let i = choose|i: int| 0 <= i < g.len() && g[i] == was;
                assert(now[i] == was);
            }
            if exists|i: int| 0 <= i < now.len() && now[i] == was {
                let i = choose|i: int| 0 <= i < now.len() && now[i] == was;
                if i < g.len() {
                    assert(g[i] == was);
                }
            }
        } else {
            assert(gone_by(keep) == g);
            if was == n && exists|i: int| 0 <= i < g.len() && g[i] == was {
                assert(false);
            }
        }
    } else {
        assert(tabs.take(0) =~= tabs);
        assert(keep.take(0) =~= keep);
    }
}

/// How many tabs stand before tab number `was`.
pub open spec fn upto(was: int, keep: Seq<bool>) -> int {
    if was <= 0 {
        0
    } else if was - 1 <= keep.len() {
        was - 1
    } else {
        keep.len() as int
    }
}

proof fn kept_prefix(tabs: Seq<Tab>, keep: Seq<bool>, n: int)
    requires
        tabs.len() == keep.len(),
        0 <= n <= keep.len(),
    ensures
        kept_by(tabs.take(n), keep.take(n)).len() <= kept_by(tabs, keep).len(),
        kept_by(tabs, keep).take(kept_by(tabs.take(n), keep.take(n)).len() as int) == kept_by(tabs.take(n), keep.take(n)),
    decreases keep.len() - n,
{
    let a = kept_by(tabs.take(n), keep.take(n));
    let all = kept_by(tabs, keep);
    if n == keep.len() {
        assert(tabs.take(n) =~= tabs);
        assert(keep.take(n) =~= keep);
        assert(all.take(all.len() as int) =~= all);
    } else {
        kept_prefix(tabs, keep, n + 1);
        let b = kept_by(tabs.take(n + 1), keep.take(n + 1));
        assert(tabs.take(n + 1).drop_last() =~= tabs.take(n));
        assert(keep.take(n + 1).drop_last() =~= keep.take(n));
        assert(b == a || b == a.push(tabs[n]));
        assert(b.take(a.len() as int) =~= a);
        assert(all.take(b.len() as int).take(a.len() as int) =~= all.take(a.len() as int));
    }
}

/// Closing tabs leaves the view on the tab it was on, wherever that is now.
pub proof fn the_view_stays_on_its_tab(tabs: Seq<Tab>, keep: Seq<bool>, was: int)
    requires
        tabs.len() == keep.len(),
        keep.len() <= usize::MAX,
        1 <= was <= keep.len(),
        keep[was - 1],
    ensures
        ({
            let left = kept_by(tabs, keep);
            let at = landing_spot(was, gone_by(keep), left.len() as int);
            1 <= at <= left.len() && left[at - 1] == tabs[was - 1]
        }),
{
    below(tabs, keep, was);
    let left = kept_by(tabs, keep);
    let a = kept_by(tabs.take(was - 1), keep.take(was - 1));
    let b = kept_by(tabs.take(was), keep.take(was));
    kept_prefix(tabs, keep, was);
    assert(tabs.take(was).drop_last() =~= tabs.take(was - 1));
    assert(keep.take(was).drop_last() =~= keep.take(was - 1));
    assert(b == a.push(tabs[was - 1]));
    assert(left.take(b.len() as int)[a.len() as int] == tabs[was - 1]);
}

/// Closing the tab in view lands on a tab that is there, and on the dashboard
/// only when no tab is left.
pub proof fn closing_lands_on_a_neighbour(tabs: Seq<Tab>, keep: Seq<bool>, was: int)
    requires
        tabs.len() == keep.len(),
        keep.len() <= usize::MAX,
        1 <= was <= keep.len(),
        !keep[was - 1],
    ensures
        ({
            let left = kept_by(tabs, keep);
            let at = landing_spot(was, gone_by(keep), left.len() as int);
            &&& 0 <= at <= left.len()
            &&& left.len() > 0 ==> at >= 1
        }),
{
    below(tabs, keep, was);
}

/// The dashboard is not a tab and never moves.
pub proof fn the_dashboard_stays(tabs: Seq<Tab>, keep: Seq<bool>)
    requires
        tabs.len() == keep.len(),
        keep.len() <= usize::MAX,
    ensures
        landing_spot(0, gone_by(keep), kept_by(tabs, keep).len() as int) == 0,
{
    below(tabs, keep, 0);
}

/// What a sweep asks to be done to say where the tabs are in the bar.
pub open spec fn order_effects(tab: Tab, at: usize, out: Seq<Effect>) -> bool {
    &&& out.len() == tab.names().len()
    &&& forall|i: int| 0 <= i < out.len() ==> (#[trigger] out[i] matches Effect::SetOrder { name, at: a } && name@
        == tab.names()[i] && a == at)
}

/// Whether `out` says of every session of the first `n` tabs where its tab is.
pub open spec fn all_order_effects(tabs: Seq<Tab>, n: int, out: Seq<Effect>) -> bool
    decreases n,
{
    if n <= 0 {
        out.len() == 0
    } else {
        let mine = tabs[n - 1].names().len() as int;
        &&& mine <= out.len()
        &&& order_effects(tabs[n - 1], (n - 1) as usize, out.skip(out.len() - mine))
        &&& all_order_effects(tabs, n - 1, out.take(out.len() - mine))
    }
}

/// What a move of the tab at `a` to `b` makes of the bar.
pub open spec fn moved(tabs: Seq<Tab>, a: int, b: int) -> Seq<Tab> {
    tabs.remove(a).insert(b, tabs[a])
}

/// Where the view is once the tab numbered `from` has moved to `to`.
pub open spec fn view_after_move(here: int, from: int, to: int) -> int {
    if here == from {
        to
    } else if from < to && from < here <= to {
        here - 1
    } else if to < from && to <= here < from {
        here + 1
    } else {
        here
    }
}

/// Moving a tab along the bar leaves the view on the tab it was on.
pub proof fn moving_a_tab_keeps_the_view(tabs: Seq<Tab>, from: int, to: int, here: int)
    requires
        1 <= from <= tabs.len(),
        1 <= to <= tabs.len(),
        1 <= here <= tabs.len(),
    ensures
        ({
            let at = view_after_move(here, from, to);
            1 <= at <= tabs.len() && moved(tabs, from - 1, to - 1)[at - 1] == tabs[here - 1]
        }),
{
}

/// Moving a tab there and back restores the bar.
pub proof fn moving_back_restores(tabs: Seq<Tab>, a: int, b: int)
    requires
        0 <= a < tabs.len(),
        0 <= b < tabs.len(),
    ensures
        moved(moved(tabs, a, b), b, a) == tabs,
{
    assert(moved(moved(tabs, a, b), b, a) =~= tabs);
}

/// A tab stands for the same sessions when its client is given up.
proof fn letting_go_keeps_the_sessions(tab: Tab, after: Tab)
    requires
        tab.let_go(after),
        tab.panes@.len() == 0 || tab.shared is None,
    ensures
        after.names() == tab.names(),
        after.panes@.len() == 0 || after.shared is None,
{
    if tab.lets_go() {
        let p = tab.panes@[0];
        assert(tab.panes@.drop_last() =~= Seq::empty());
        assert(tab.panes@.last() == p);
        reveal_with_fuel(pane_names, 2);
        assert(after.names() =~= tab.names());
    }
}

/// One tab is reached: as many tabs, and each of the same sessions.
proof fn reaching_keeps_the_tabs(a: App, want: int, b: App)
    requires
        a.reached(want, b),
        0 <= want <= a.tabs@.len(),
        forall|i: int| 0 <= i < a.tabs@.len() ==> (#[trigger] a.tabs@[i]).panes@.len() == 0 || a.tabs@[i].shared is None,
    ensures
        b.tab == want,
        b.tabs@.len() == a.tabs@.len(),
        forall|i: int| 0 <= i < a.tabs@.len() ==> (#[trigger] b.tabs@[i]).names() == a.tabs@[i].names(),
        forall|i: int| 0 <= i < b.tabs@.len() ==> (#[trigger] b.tabs@[i]).panes@.len() == 0 || b.tabs@[i].shared is None,
{
    if want != a.tab {
        if 1 <= a.tab <= a.tabs@.len() {
            letting_go_keeps_the_sessions(a.tabs@[a.tab - 1], b.tabs@[a.tab - 1]);
        }
        if 1 <= want && a.tabs@[want - 1].apart() {
            let (asked, pane) = choose|asked: App, pane: Pane|
                {
                    &&& a.went(want, asked)
                    &&& pane.rmux is Some && pane.rmux->0@ == a.tabs@[want - 1].shared->0.name@
                    &&& #[trigger] asked.opened(want, pane, b)
                };
            let here = b.tabs@[want - 1];
            assert(here.panes@ == seq![pane]);
            assert(here.panes@.drop_last() =~= Seq::empty());
            assert(here.panes@.last() == pane);
            reveal_with_fuel(pane_names, 2);
            assert(here.names() =~= a.tabs@[want - 1].names());
        }
        assert forall|i: int| 0 <= i < a.tabs@.len() implies (#[trigger] b.tabs@[i]).names() == a.tabs@[i].names() && (
        b.tabs@[i].panes@.len() == 0 || b.tabs@[i].shared is None) by {
            if i != a.tab - 1 && i != want - 1 {
                assert(b.tabs@[i] == a.tabs@[i]);
            }
        }
    }
}

/// Walking the ring of tabs, the dashboard among them, by any number of steps and
/// back by as many ends on the tab it began on, and the tabs keep their order, their
/// number and their sessions. A tab that holds a client stands for no session
/// besides.
pub proof fn walking_back_returns(a: App, delta: int, b: App, c: App)
    requires
        a.tab <= a.tabs@.len(),
        forall|i: int| 0 <= i < a.tabs@.len() ==> (#[trigger] a.tabs@[i]).panes@.len() == 0 || a.tabs@[i].shared is None,
        a.reached(stepped(a.tab as int, delta, a.tabs@.len() as int + 1), b),
        b.reached(stepped(b.tab as int, -delta, b.tabs@.len() as int + 1), c),
    ensures
        b.tab == stepped(a.tab as int, delta, a.tabs@.len() as int + 1),
        c.tab == a.tab,
        b.tabs@.len() == a.tabs@.len(),
        c.tabs@.len() == a.tabs@.len(),
        forall|i: int| 0 <= i < a.tabs@.len() ==> (#[trigger] b.tabs@[i]).names() == a.tabs@[i].names(),
        forall|i: int| 0 <= i < a.tabs@.len() ==> (#[trigger] c.tabs@[i]).names() == a.tabs@[i].names(),
{
    let n = a.tabs@.len() as int + 1;
    let there = stepped(a.tab as int, delta, n);
    vstd::arithmetic::div_mod::lemma_mod_bound(a.tab + delta, n);
    reaching_keeps_the_tabs(a, there, b);
    stepping_back_returns(a.tab as int, delta, n);
    reaching_keeps_the_tabs(b, a.tab as int, c);
    assert forall|i: int| 0 <= i < a.tabs@.len() implies (#[trigger] c.tabs@[i]).names() == a.tabs@[i].names() by {
        assert(b.tabs@[i].names() == a.tabs@[i].names());
    }
}

/// One step on from the last tab is the dashboard, and one step back from the
/// dashboard is the last tab.
pub proof fn the_ring_goes_through_the_dashboard(n: int)
    requires
        n >= 0,
    ensures
        stepped(n, 1, n + 1) == 0,
        stepped(0, -1, n + 1) == n,
{
    vstd::arithmetic::div_mod::lemma_mod_self_0(n + 1);
    vstd::arithmetic::div_mod::lemma_mod_add_multiples_vanish(-1, n + 1);
    vstd::arithmetic::div_mod::lemma_small_mod(n as nat, (n + 1) as nat);
}

/// Whether the multiplexer still has the session tab `tab` stands for: it was
/// listed, or it was asked for and answered.
pub open spec fn still_there(tab: Tab, running: Seq<Running>, alive: Set<Seq<char>>) -> bool {
    match tab.shared {
        None => true,
        Some(s) => agent_place(running, s.name@) < running.len() || alive.contains(s.name@),
    }
}

/// Whether `name` is a session a tab stands for that the listing does not hold.
pub open spec fn unlisted(tabs: Seq<Tab>, running: Seq<Running>, name: Seq<char>) -> bool {
    &&& agent_place(running, name) >= running.len()
    &&& exists|j: int| 0 <= j < tabs.len() && (#[trigger] tabs[j]).shared is Some && tabs[j].shared->0.name@ == name
}

/// What is known of a session once the multiplexer has been heard.
pub open spec fn refreshed(s: Shared, agent: Running) -> Shared {
    Shared {
        activity: agent.activity,
        pid: if agent.pid is Some {
            agent.pid
        } else {
            s.pid
        },
        profile: if agent.profile is Some {
            agent.profile
        } else {
            s.profile
        },
        label: match agent.label {
            Some(l) => l,
            None => s.label,
        },
        ..s
    }
}

/// The first session of that name, or the number of sessions.
pub open spec fn agent_place(running: Seq<Running>, name: Seq<char>) -> int
    decreases running.len(),
{
    if running.len() == 0 {
        0
    } else if running[0].name@ == name {
        0
    } else {
        1 + agent_place(running.skip(1), name)
    }
}

proof fn agent_found(running: Seq<Running>, name: Seq<char>, i: int)
    requires
        0 <= i <= running.len(),
        forall|j: int| 0 <= j < i ==> (#[trigger] running[j]).name@ != name,
        i < running.len() ==> running[i].name@ == name,
    ensures
        agent_place(running, name) == i,
    decreases running.len(),
{
    if running.len() > 0 && i > 0 {
        let rest = running.skip(1);
        assert(running[0].name@ != name);
        assert forall|j: int| 0 <= j < i - 1 implies (#[trigger] rest[j]).name@ != name by {
            assert(rest[j] == running[j + 1]);
        }
        if i < running.len() {
            assert(rest[i - 1] == running[i]);
        }
        agent_found(rest, name, i - 1);
    }
}

/// A tab once the multiplexer has been heard.
pub open spec fn heard(tab: Tab, running: Seq<Running>) -> Tab {
    match tab.shared {
        None => tab,
        Some(s) => {
            let i = agent_place(running, s.name@);
            if i < running.len() {
                Tab { shared: Some(refreshed(s, running[i])), ..tab }
            } else {
                tab
            }
        },
    }
}

fn find_agent(running: &Vec<Running>, name: &str) -> (r: usize)
    ensures
        r == agent_place(running@, name@),
        r <= running@.len(),
{
    let mut i: usize = 0;
    while i < running.len()
        invariant
            i <= running@.len(),
            forall|j: int| 0 <= j < i ==> (#[trigger] running@[j]).name@ != name@,
        decreases running@.len() - i,
    {
        if same(running[i].name.as_str(), name) {
            proof {
                agent_found(running@, name@, i as int);
            }
            return i;
        }
        i += 1;
    }
    proof {
        agent_found(running@, name@, i as int);
    }
    i
}

impl App {
    /// The tab on screen, or `None` on the dashboard.
    pub fn active_tab(&mut self) -> (r: Option<&mut Tab>)
        ensures
            match r {
                Some(t) => {
                    &&& 1 <= old(self).tab <= old(self).tabs@.len()
                    &&& *t == old(self).tabs@[old(self).tab - 1]
                    &&& final(self).tabs@ == old(self).tabs@.update(old(self).tab - 1, *final(t))
                    &&& *final(self) == (App { tabs: final(self).tabs, ..*old(self) })
                },
                None => !(1 <= old(self).tab <= old(self).tabs@.len()) && *final(self) == *old(self),
            },
    {
        if self.tab >= 1 && self.tab - 1 < self.tabs.len() {
            let at: usize = self.tab - 1;
            Some(&mut self.tabs[at])
        } else {
            None
        }
    }

    /// The pane the keyboard belongs to, or `None` on the dashboard.
    pub fn focused_pane(&mut self) -> (r: Option<&mut Pane>)
        ensures
            ({
                let on = 1 <= old(self).tab <= old(self).tabs@.len();
                let t = old(self).tabs@[old(self).tab - 1];
                match r {
                    Some(p) => {
                        &&& on && t.focus < t.panes@.len()
                        &&& *p == t.panes@[t.focus as int]
                        &&& final(self).tabs@.len() == old(self).tabs@.len()
                        &&& final(self).tabs@[old(self).tab - 1].panes@ == t.panes@.update(t.focus as int, *final(p))
                        &&& final(self).tabs@[old(self).tab - 1] == (Tab {
                            panes: final(self).tabs@[old(self).tab - 1].panes,
                            ..t
                        })
                        &&& forall|i: int|
                            0 <= i < old(self).tabs@.len() && i != old(self).tab - 1 ==> #[trigger] final(self).tabs@[i]
                                == old(self).tabs@[i]
                        &&& *final(self) == (App { tabs: final(self).tabs, ..*old(self) })
                    },
                    None => !(on && t.focus < t.panes@.len()) && *final(self) == *old(self),
                }
            }),
    {
        if self.tab >= 1 && self.tab - 1 < self.tabs.len() {
            let at: usize = self.tab - 1;
            let focus: usize = self.tabs[at].focus;
            if focus < self.tabs[at].panes.len() {
                return Some(&mut self.tabs[at].panes[focus]);
            }
        }
        None
    }

    /// Show `tab`, clamped to what exists.
    pub fn show_tab(&mut self, tab: usize)
        ensures
            old(self).went(
                if tab < old(self).tabs@.len() {
                    tab as int
                } else {
                    old(self).tabs@.len() as int
                },
                *final(self),
            ),
    {
        let want: usize = if tab < self.tabs.len() {
            tab
        } else {
            self.tabs.len()
        };
        self.go_to_tab(want);
    }

    /// Move the tab numbered `from` to `to`. The dashboard neither moves nor is
    /// displaced, and the view follows the tab it was on.
    pub fn move_tab(&mut self, from: usize, to: usize)
        ensures
            if from >= 1 && to >= 1 && from != to && from <= old(self).tabs@.len() && to <= old(self).tabs@.len() {
                &&& final(self).tabs@ == moved(old(self).tabs@, from - 1, to - 1)
                &&& final(self).tab == view_after_move(old(self).tab as int, from as int, to as int)
                &&& *final(self) == (App {
                    tabs: final(self).tabs,
                    tab: final(self).tab,
                    needs_redraw: true,
                    ..*old(self)
                })
            } else {
                *final(self) == *old(self)
            },
    {
        if from == 0 || to == 0 {
            return;
        }
        let a: usize = from - 1;
        let b: usize = to - 1;
        if a == b || a >= self.tabs.len() || b >= self.tabs.len() {
            return;
        }
        let tab = self.tabs.remove(a);
        self.tabs.insert(b, tab);
        let here: usize = self.tab;
        self.tab = if here == from {
            to
        } else if a < b && here > from && here <= to {
            here - 1
        } else if b < a && here >= to && here < from {
            here + 1
        } else {
            here
        };
        self.needs_redraw = true;
    }

    /// Say of every session of every tab where its tab is, so that the
    /// arrangement outlives this process.
    ///
    /// Done when a rearrangement finishes, not while one is happening.
    pub fn save_tab_order(&mut self)
        ensures
            *final(self) == (App { effects: final(self).effects, ..*old(self) }),
            final(self).effects@.len() >= old(self).effects@.len(),
            final(self).effects@.take(old(self).effects@.len() as int) == old(self).effects@,
            all_order_effects(
                old(self).tabs@,
                old(self).tabs@.len() as int,
                final(self).effects@.skip(old(self).effects@.len() as int),
            ),
    {
        let ghost n0 = self.effects@.len() as int;
        let mut at: usize = 0;
        assert(self.effects@.take(n0) =~= self.effects@);
        while at < self.tabs.len()
            invariant
                at <= self.tabs@.len(),
                n0 == old(self).effects@.len(),
                *self == (App { effects: self.effects, ..*old(self) }),
                self.effects@.len() >= n0,
                self.effects@.take(n0) == old(self).effects@,
                all_order_effects(self.tabs@, at as int, self.effects@.skip(n0)),
            decreases self.tabs@.len() - at,
        {
            let names = self.tabs[at].sessions();
            let ghost before = self.effects@;
            let ghost said = self.tabs@[at as int].names();
            assert(said == names@.map_values(|s: String| s@));
            let mut k: usize = 0;
            while k < names.len()
                invariant
                    k <= names@.len(),
                    at < self.tabs@.len(),
                    n0 <= before.len(),
                    *self == (App { effects: self.effects, ..*old(self) }),
                    self.effects@.len() == before.len() + k,
                    self.effects@.take(before.len() as int) == before,
                    said == names@.map_values(|s: String| s@),
                    forall|j: int|
                        before.len() <= j < before.len() + k ==> (#[trigger] self.effects@[j] matches Effect::SetOrder {
                            name,
                            at: a,
                        } && name@ == said[j - before.len()] && a == at),
                decreases names@.len() - k,
            {
                let name = names[k].clone();
                let ghost prior = self.effects@;
                self.ask(Effect::SetOrder { name, at });
                assert(self.effects@.take(before.len() as int) =~= prior.take(before.len() as int));
                k += 1;
            }
            proof {
                let out = self.effects@.skip(n0);
                let mine = said.len() as int;
                assert(self.effects@.take(n0) =~= before.take(n0));
                assert(out.take(out.len() - mine) =~= before.skip(n0));
                let tail = out.skip(out.len() - mine);
                assert forall|i: int| 0 <= i < tail.len() implies (#[trigger] tail[i] matches Effect::SetOrder {
                    name,
                    at: a,
                } && name@ == said[i] && a == at) by {
                    assert(tail[i] == self.effects@[before.len() + i]);
                }
            }
            at += 1;
        }
    }

    /// Move the tab on screen along the bar, stopping at both ends.
    ///
    /// Clamped rather than wrapped: a tab at the end jumping to the front reads
    /// as having lost it.
    pub fn move_workspace(&mut self, delta: isize)
        requires
            old(self).tab <= old(self).tabs@.len(),
        ensures
            if old(self).tab == 0 {
                *final(self) == *old(self)
            } else {
                let to = clamped(old(self).tab as int, delta as int, 1, old(self).tabs@.len() as int);
                &&& final(self).tabs@ == moved(old(self).tabs@, old(self).tab - 1, to - 1)
                &&& final(self).tab == to
                &&& final(self).effects@.len() >= old(self).effects@.len()
                &&& final(self).effects@.take(old(self).effects@.len() as int) == old(self).effects@
                &&& all_order_effects(
                    final(self).tabs@,
                    final(self).tabs@.len() as int,
                    final(self).effects@.skip(old(self).effects@.len() as int),
                )
                &&& *final(self) == (App {
                    tabs: final(self).tabs,
                    tab: final(self).tab,
                    effects: final(self).effects,
                    needs_redraw: if to == old(self).tab {
                        old(self).needs_redraw
                    } else {
                        true
                    },
                    ..*old(self)
                })
            },
    {
        if self.tab == 0 {
            return;
        }
        let from: usize = self.tab;
        let to: usize = walk(from, delta, 1, self.tabs.len());
        self.move_tab(from, to);
        proof {
            if to == from {
                assert(moved(old(self).tabs@, from - 1, to - 1) =~= old(self).tabs@);
            }
        }
        self.save_tab_order();
    }

    /// Move `delta` tabs along, wrapping through the dashboard.
    pub fn cycle_workspace(&mut self, delta: isize)
        ensures
            old(self).went(stepped(old(self).tab as int, delta as int, old(self).tabs@.len() as int + 1), *final(self)),
    {
        self.go_to_tab(step_to(self.tab, delta, self.tabs.len()));
    }

    /// What arriving on tab `want` leaves of a state: the tab left behind gives
    /// its client up.
    pub open spec fn arrived(&self, want: int, after: App) -> bool {
        &&& after.tab == want
        &&& after.tabs@.len() == self.tabs@.len()
        &&& forall|i: int| 0 <= i < self.tabs@.len() && i != self.tab - 1 ==> #[trigger] after.tabs@[i] == self.tabs@[i]
        &&& 1 <= self.tab <= self.tabs@.len() ==> self.tabs@[self.tab - 1].let_go(after.tabs@[self.tab - 1])
        &&& after == (App { tabs: after.tabs, tab: after.tab, needs_redraw: true, ..*self })
    }

    /// What asking for tab `want` leaves of a state.
    ///
    /// A tab that stands for a session nobody here is a client of is only
    /// arrived on once a client is on it, so the view stays where it is until
    /// then.
    pub open spec fn went(&self, want: int, after: App) -> bool {
        if want == self.tab {
            after == (App { needs_redraw: true, ..*self })
        } else if 1 <= want <= self.tabs@.len() && self.tabs@[want - 1].apart() {
            &&& after.effects@ == self.effects@.push(Effect::Attach { tab: want as usize })
            &&& after == (App { effects: after.effects, needs_redraw: true, ..*self })
        } else {
            self.arrived(want, after)
        }
    }

    /// What taking the client `pane` onto tab `want` leaves of a state: the view
    /// is on it, and the tab left behind gives its client up.
    pub open spec fn opened(&self, want: int, pane: Pane, after: App) -> bool {
        &&& after.tab == want
        &&& after.tabs@.len() == self.tabs@.len()
        &&& after.tabs@[want - 1].panes@ == seq![pane]
        &&& after.tabs@[want - 1].focus == 0
        &&& after.tabs@[want - 1].shared is None
        &&& forall|i: int|
            0 <= i < self.tabs@.len() && i != self.tab - 1 && i != want - 1 ==> #[trigger] after.tabs@[i] == self.tabs@[i]
        &&& 1 <= self.tab <= self.tabs@.len() ==> self.tabs@[self.tab - 1].let_go(after.tabs@[self.tab - 1])
        &&& after == (App { tabs: after.tabs, tab: after.tab, needs_redraw: true, ..*self })
    }

    /// Whether `after` is what asking for tab `want` comes to: where a client has
    /// to be taken onto its session first, that client is had.
    pub open spec fn reached(&self, want: int, after: App) -> bool {
        if want != self.tab && 1 <= want <= self.tabs@.len() && self.tabs@[want - 1].apart() {
            exists|asked: App, pane: Pane|
                {
                    &&& self.went(want, asked)
                    &&& pane.rmux is Some && pane.rmux->0@ == self.tabs@[want - 1].shared->0.name@
                    &&& #[trigger] asked.opened(want, pane, after)
                }
        } else {
            self.went(want, after)
        }
    }

    fn arrive(&mut self, want: usize)
        ensures
            old(self).arrived(want as int, *final(self)),
    {
        if self.tab >= 1 && self.tab - 1 < self.tabs.len() {
            let at: usize = self.tab - 1;
            self.tabs[at].detach();
        }
        self.tab = want;
        self.needs_redraw = true;
    }

    /// Move to `want`, taking the client with you.
    pub fn go_to_tab(&mut self, want: usize)
        ensures
            old(self).went(want as int, *final(self)),
    {
        self.needs_redraw = true;
        if want == self.tab {
            return;
        }
        if want >= 1 && want - 1 < self.tabs.len() && self.tabs[want - 1].detached() {
            self.ask(Effect::Attach { tab: want });
            return;
        }
        self.arrive(want);
    }

    /// What came of taking a client onto the session tab `want` stands for.
    ///
    /// A session that has ended since leaves the view where it was, saying why.
    pub fn attached(&mut self, want: usize, answer: Result<Pane, String>)
        ensures
            if !(1 <= want <= old(self).tabs@.len()) || want == old(self).tab {
                *final(self) == *old(self)
            } else {
                match answer {
                    Err(error) => old(self).said(
                        "Could not open "@ + old(self).tabs@[want - 1].name() + ": "@ + error@,
                        *final(self),
                    ),
                    Ok(pane) => old(self).opened(want as int, pane, *final(self)),
                }
            },
    {
        if want == 0 || want - 1 >= self.tabs.len() || want == self.tab {
            return;
        }
        match answer {
            Err(error) => {
                let title = self.tabs[want - 1].title();
                let mut s = cat("Could not open ", title.as_str());
                s.append(": ");
                s.append(error.as_str());
                self.set_status(s);
            },
            Ok(pane) => {
                let at: usize = want - 1;
                self.tabs[at].attach(pane);
                self.arrive(want);
            },
        }
    }

    /// The sessions to ask about before [`App::sync_shared_tabs`]: those a tab
    /// stands for that the listing does not hold.
    ///
    /// A listing that failed and every session having ended look alike, so a tab
    /// is only retired when its own session is asked for and is not there.
    pub fn unlisted_sessions(&self, running: &Vec<Running>) -> (r: Vec<String>)
        ensures
            forall|name: Seq<char>| #[trigger] listed(r@, name) <==> unlisted(self.tabs@, running@, name),
    {
        let mut out: Vec<String> = Vec::new();
        let mut i: usize = 0;
        while i < self.tabs.len()
            invariant
                i <= self.tabs@.len(),
                forall|name: Seq<char>| #[trigger]
                    listed(out@, name) <==> unlisted(self.tabs@.take(i as int), running@, name),
            decreases self.tabs@.len() - i,
        {
            let ghost was = out@;
            let mut found = false;
            match &self.tabs[i].shared {
                Some(s) => {
                    let at: usize = find_agent(running, s.name.as_str());
                    if at >= running.len() {
                        out.push(s.name.clone());
                        found = true;
                    }
                },
                None => {},
            }
            proof {
                let past = self.tabs@.take(i as int);
                let now = self.tabs@.take(i + 1);
                assert(now[i as int] == self.tabs@[i as int]);
                assert forall|name: Seq<char>| #[trigger] listed(out@, name) <==> unlisted(now, running@, name) by {
                    if listed(was, name) {
                        let k = choose|k: int| 0 <= k < was.len() && (#[trigger] was[k])@ == name;
                        assert(out@[k]@ == name);
                    }
                    if unlisted(past, running@, name) {
                        let j = choose|j: int|
                            0 <= j < past.len() && (#[trigger] past[j]).shared is Some && past[j].shared->0.name@ == name;
                        assert(now[j] == past[j]);
                    }
                    if found {
                        assert(out@[was.len() as int]@ == self.tabs@[i as int].shared->0.name@);
                    }
                    if listed(out@, name) && !listed(was, name) {
                        let k = choose|k: int| 0 <= k < out@.len() && (#[trigger] out@[k])@ == name;
                        if k < was.len() {
                            assert(was[k]@ == name);
                        }
                    }
                    if unlisted(now, running@, name) && !unlisted(past, running@, name) {
                        let j = choose|j: int|
                            0 <= j < now.len() && (#[trigger] now[j]).shared is Some && now[j].shared->0.name@ == name;
                        if j < i {
                            assert(past[j] == now[j]);
                        }
                    }
                }
            }
            i += 1;
        }
        assert(self.tabs@.take(i as int) =~= self.tabs@);
        out
    }

    /// Whether enough time has passed to look at the sessions again.
    pub fn share_due(&self) -> (r: bool)
        ensures
            r == (match self.shared_at {
                Some(at) => self.now - at >= SHARE_EVERY,
                None => true,
            }),
    {
        match self.shared_at {
            Some(at) => self.now >= at && self.now - at >= SHARE_EVERY,
            None => true,
        }
    }
}

/// The view once it has landed on tab `want` of `kept`: a tab that stands for a
/// session nobody here is a client of is only arrived on once a client is on it.
pub open spec fn view_landed(kept: Seq<Tab>, want: int) -> int {
    if 1 <= want <= kept.len() && kept[want - 1].apart() {
        0
    } else {
        want
    }
}

/// What landing on tab `want` of `kept` asks for.
pub open spec fn landing_effects(effects: Seq<Effect>, kept: Seq<Tab>, want: int) -> Seq<Effect> {
    if 1 <= want <= kept.len() && kept[want - 1].apart() {
        effects.push(Effect::Attach { tab: want as usize })
    } else {
        effects
    }
}

/// Whether a tab has an agent: in a pane, or in a session it stands for.
pub open spec fn occupied(tab: Tab) -> bool {
    tab.panes@.len() > 0 || tab.shared is Some
}

/// Which tabs have an agent.
pub open spec fn occupancy(tabs: Seq<Tab>) -> Seq<bool> {
    tabs.map_values(|t: Tab| occupied(t))
}

/// Which tabs the multiplexer still has the session of.
pub open spec fn presence(tabs: Seq<Tab>, running: Seq<Running>, alive: Set<Seq<char>>) -> Seq<bool> {
    tabs.map_values(|t: Tab| still_there(t, running, alive))
}

/// The tabs once the multiplexer has been heard.
pub open spec fn heard_all(tabs: Seq<Tab>, running: Seq<Running>) -> Seq<Tab> {
    tabs.map_values(|t: Tab| heard(t, running))
}

/// What the sessions are put in order by.
pub open spec fn bar_keys(running: Seq<Running>) -> Seq<Seq<u64>> {
    running.map_values(|a: Running| bar_key(a))
}

/// Whether a tab holds the session `name`.
pub open spec fn holds(tabs: Seq<Tab>, name: Seq<char>) -> bool {
    exists|i: int| 0 <= i < tabs.len() && (#[trigger] tabs[i]).names().contains(name)
}

/// The sessions of `order` that no tab holds.
pub open spec fn newcomers(order: Seq<usize>, running: Seq<Running>, tabs: Seq<Tab>) -> Seq<usize>
    decreases order.len(),
{
    if order.len() == 0 {
        Seq::empty()
    } else {
        let before = newcomers(order.drop_last(), running, tabs);
        if holds(tabs, running[order.last() as int].name@) {
            before
        } else {
            before.push(order.last())
        }
    }
}

/// Whether a tab stands for a session, and for nothing else.
pub open spec fn stands_for(tab: Tab, agent: Running) -> bool {
    tab.panes@.len() == 0 && tab.focus == 0 && tab.shared == Some(shared_of(agent))
}

/// Whether `tabs` stand for the sessions `picks` lists.
pub open spec fn stand_for(tabs: Seq<Tab>, running: Seq<Running>, picks: Seq<usize>) -> bool {
    &&& tabs.len() == picks.len()
    &&& forall|i: int| 0 <= i < picks.len() ==> stands_for(#[trigger] tabs[i], running[picks[i] as int])
}

/// The first pane onto the process `pid`, or the number of panes.
pub open spec fn pane_onto(panes: Seq<Pane>, pid: u32) -> int
    decreases panes.len(),
{
    if panes.len() == 0 {
        0
    } else if panes[0].pid == pid || panes[0].agent_of() == pid {
        0
    } else {
        1 + pane_onto(panes.skip(1), pid)
    }
}

/// The first tab with a pane onto the process `pid`, or the number of tabs.
pub open spec fn tab_onto(tabs: Seq<Tab>, pid: u32) -> int
    decreases tabs.len(),
{
    if tabs.len() == 0 {
        0
    } else if pane_onto(tabs[0].panes@, pid) < tabs[0].panes@.len() {
        0
    } else {
        1 + tab_onto(tabs.skip(1), pid)
    }
}

/// The first tab standing for the process `pid`, or the number of tabs.
pub open spec fn tab_of(tabs: Seq<Tab>, pid: u32) -> int
    decreases tabs.len(),
{
    if tabs.len() == 0 {
        0
    } else if tabs[0].shared is Some && tabs[0].shared->0.pid == Some(pid) {
        0
    } else {
        1 + tab_of(tabs.skip(1), pid)
    }
}

fn find_pane(panes: &Vec<Pane>, pid: u32) -> (r: usize)
    ensures
        r == pane_onto(panes@, pid),
        r <= panes@.len(),
{
    let mut i: usize = 0;
    assert(panes@.skip(0) =~= panes@);
    while i < panes.len() && panes[i].pid != pid && panes[i].agent() != pid
        invariant
            i <= panes@.len(),
            pane_onto(panes@, pid) == i + pane_onto(panes@.skip(i as int), pid),
        decreases panes@.len() - i,
    {
        assert(panes@.skip(i as int).skip(1) =~= panes@.skip(i + 1));
        i += 1;
    }
    i
}

fn find_tab_onto(tabs: &Vec<Tab>, pid: u32) -> (r: usize)
    ensures
        r == tab_onto(tabs@, pid),
        r <= tabs@.len(),
        r < tabs@.len() ==> pane_onto(tabs@[r as int].panes@, pid) < tabs@[r as int].panes@.len(),
{
    let mut i: usize = 0;
    assert(tabs@.skip(0) =~= tabs@);
    while i < tabs.len()
        invariant
            i <= tabs@.len(),
            tab_onto(tabs@, pid) == i + tab_onto(tabs@.skip(i as int), pid),
        decreases tabs@.len() - i,
    {
        if find_pane(&tabs[i].panes, pid) < tabs[i].panes.len() {
            return i;
        }
        assert(tabs@.skip(i as int).skip(1) =~= tabs@.skip(i + 1));
        i += 1;
    }
    i
}

fn find_tab_of(tabs: &Vec<Tab>, pid: u32) -> (r: usize)
    ensures
        r == tab_of(tabs@, pid),
        r <= tabs@.len(),
{
    let mut i: usize = 0;
    assert(tabs@.skip(0) =~= tabs@);
    while i < tabs.len()
        invariant
            i <= tabs@.len(),
            tab_of(tabs@, pid) == i + tab_of(tabs@.skip(i as int), pid),
        decreases tabs@.len() - i,
    {
        match &tabs[i].shared {
            Some(s) => match s.pid {
                Some(p) => {
                    if p == pid {
                        return i;
                    }
                },
                None => {},
            },
            None => {},
        }
        assert(tabs@.skip(i as int).skip(1) =~= tabs@.skip(i + 1));
        i += 1;
    }
    i
}

impl App {
    /// Where the view goes from tab `was` once `gone` have left the bar and
    /// `remaining` are in it.
    pub fn landing(was: usize, gone: &[usize], remaining: usize) -> (r: usize)
        requires
            count_below(gone@, was as int) <= was,
        ensures
            r == landing_spot(was as int, gone@, remaining as int),
    {
        let mut before: usize = 0;
        let mut among = false;
        let mut i: usize = 0;
        assert(gone@.take(0) =~= Seq::<usize>::empty());
        while i < gone.len()
            invariant
                i <= gone@.len(),
                before <= i,
                before == count_below(gone@.take(i as int), was as int),
                among <==> exists|k: int| 0 <= k < i && gone@[k] == was,
            decreases gone@.len() - i,
        {
            proof {
                assert(gone@.take(i + 1).drop_last() =~= gone@.take(i as int));
                assert(gone@.take(i + 1).last() == gone@[i as int]);
            }
            if gone[i] < was {
                before += 1;
            }
            if gone[i] == was {
                among = true;
            }
            i += 1;
        }
        assert(gone@.take(i as int) =~= gone@);
        let slid: usize = was - before;
        if among && slid > remaining {
            remaining
        } else {
            slid
        }
    }

    /// What landing leaves of a state whose tabs have become `kept`, the view
    /// having been on tab `was` and `gone` having left.
    pub open spec fn landed(&self, was: int, gone: Seq<usize>, kept: Seq<Tab>, after: App) -> bool {
        let want = landing_spot(was, gone, kept.len() as int);
        &&& after.tabs@ == kept
        &&& after.tab == view_landed(kept, want)
        &&& after.effects@ == landing_effects(self.effects@, kept, want)
        &&& after == (App {
            tabs: after.tabs,
            tab: after.tab,
            effects: after.effects,
            needs_redraw: true,
            ..*self
        })
    }

    /// Move the view from tab `was` once `gone` have left the bar.
    ///
    /// It lands the way a switch does, because a tab another process is on holds
    /// no pane until a client of this one is on it.
    pub fn land_after(&mut self, was: usize, gone: &[usize])
        requires
            count_below(gone@, was as int) <= was,
        ensures
            old(self).landed(was as int, gone@, old(self).tabs@, *final(self)),
    {
        let want: usize = App::landing(was, gone, self.tabs.len());
        // The field still holds the number of a tab that is gone, and a move to
        // where the view already is does nothing.
        self.tab = 0;
        self.go_to_tab(want);
        assert(self.tabs@ =~= old(self).tabs@);
        assert(self.effects@ =~= landing_effects(
            old(self).effects@,
            old(self).tabs@,
            landing_spot(was as int, gone@, old(self).tabs@.len() as int),
        ));
    }

    /// What [`App::drop_empty_tabs`] leaves of a state.
    pub open spec fn dropped(&self, after: App) -> bool {
        let keep = occupancy(self.tabs@);
        if gone_by(keep).len() == 0 {
            after.tabs@ == self.tabs@ && after == (App { tabs: after.tabs, ..*self })
        } else {
            self.landed(self.tab as int, gone_by(keep), kept_by(self.tabs@, keep), after)
        }
    }

    /// Forget the tabs whose agents have all exited, keeping the view on
    /// something that still exists. A tab that stands for a session holds no
    /// pane on purpose, and stays.
    pub fn drop_empty_tabs(&mut self)
        ensures
            old(self).dropped(*final(self)),
    {
        let was: usize = self.tab;
        let mut keep: Vec<bool> = Vec::new();
        let mut i: usize = 0;
        while i < self.tabs.len()
            invariant
                i <= self.tabs@.len(),
                keep@ =~= occupancy(self.tabs@.take(i as int)),
            decreases self.tabs@.len() - i,
        {
            keep.push(self.tabs[i].panes.len() > 0 || self.tabs[i].shared.is_some());
            i += 1;
        }
        assert(self.tabs@.take(i as int) =~= self.tabs@);
        self.retire(was, &keep);
    }

    /// Take the tabs out that `keep` does not keep, and land.
    fn retire(&mut self, was: usize, keep: &Vec<bool>) -> (r: bool)
        requires
            keep@.len() == old(self).tabs@.len(),
        ensures
            r == (gone_by(keep@).len() > 0),
            if gone_by(keep@).len() == 0 {
                final(self).tabs@ == old(self).tabs@ && *final(self) == (App { tabs: final(self).tabs, ..*old(self) })
            } else {
                old(self).landed(was as int, gone_by(keep@), kept_by(old(self).tabs@, keep@), *final(self))
            },
    {
        let n: usize = self.tabs.len();
        proof {
            below(self.tabs@, keep@, was as int);
            all_kept(self.tabs@, keep@);
        }
        let mut tabs: Vec<Tab> = Vec::new();
        std::mem::swap(&mut tabs, &mut self.tabs);
        let (kept, gone) = split(tabs, keep);
        self.tabs = kept;
        if gone.len() == 0 {
            return false;
        }
        self.land_after(was, gone.as_slice());
        true
    }

    /// The multiplexer sessions in the tabs.
    pub fn open_rmux(&self) -> (r: KeySet)
        ensures
            forall|name: Seq<char>| #[trigger] r@.contains(name) <==> holds(self.tabs@, name),
    {
        let mut out = KeySet::new();
        let mut i: usize = 0;
        while i < self.tabs.len()
            invariant
                i <= self.tabs@.len(),
                forall|name: Seq<char>| #[trigger] out@.contains(name) <==> holds(self.tabs@.take(i as int), name),
            decreases self.tabs@.len() - i,
        {
            let names = self.tabs[i].sessions();
            let ghost said = self.tabs@[i as int].names();
            let ghost was = out@;
            let mut k: usize = 0;
            while k < names.len()
                invariant
                    k <= names@.len(),
                    said == names@.map_values(|s: String| s@),
                    forall|name: Seq<char>| #[trigger]
                        out@.contains(name) <==> was.contains(name) || said.take(k as int).contains(name),
                decreases names@.len() - k,
            {
                let ghost prior = out@;
                out.insert(names[k].clone());
                proof {
                    assert(said[k as int] == names@[k as int]@);
                    let long = said.take(k + 1);
                    let short = said.take(k as int);
                    assert forall|name: Seq<char>| #[trigger]
                        out@.contains(name) <==> was.contains(name) || said.take(k + 1).contains(name) by {
                        assert(said.take(k + 1)[k as int] == said[k as int]);
                        if said.take(k as int).contains(name) {
                            let j = choose|j: int| 0 <= j < short.len() && short[j] == name;
                            assert(long[j] == name);
                        }
                        if said.take(k + 1).contains(name) && name != said[k as int] {
                            let j = choose|j: int| 0 <= j < long.len() && long[j] == name;
                            assert(short[j] == name);
                        }
                    }
                }
                k += 1;
            }
            proof {
                assert(said.take(k as int) =~= said);
                let past = self.tabs@.take(i as int);
                let now = self.tabs@.take(i + 1);
                assert(now[i as int] == self.tabs@[i as int]);
                assert forall|name: Seq<char>| #[trigger] out@.contains(name) <==> holds(now, name) by {
                    if holds(past, name) {
                        let j = choose|j: int| 0 <= j < past.len() && (#[trigger] past[j]).names().contains(name);
                        assert(now[j] == past[j]);
                    }
                    if holds(now, name) && !holds(past, name) {
                        let j = choose|j: int| 0 <= j < now.len() && (#[trigger] now[j]).names().contains(name);
                        if j < i {
                            assert(past[j] == now[j]);
                        }
                    }
                }
            }
            i += 1;
        }
        assert(self.tabs@.take(i as int) =~= self.tabs@);
        out
    }

    fn hear(&mut self, running: &Vec<Running>)
        ensures
            final(self).tabs@ == heard_all(old(self).tabs@, running@),
            *final(self) == (App { tabs: final(self).tabs, ..*old(self) }),
    {
        let mut i: usize = 0;
        let ghost was = self.tabs@;
        while i < self.tabs.len()
            invariant
                i <= self.tabs@.len(),
                self.tabs@.len() == was.len(),
                was == old(self).tabs@,
                *self == (App { tabs: self.tabs, ..*old(self) }),
                forall|j: int| i <= j < was.len() ==> #[trigger] self.tabs@[j] == was[j],
                forall|j: int| 0 <= j < i ==> #[trigger] self.tabs@[j] == heard(was[j], running@),
            decreases self.tabs@.len() - i,
        {
            let ghost tab = self.tabs@[i as int];
            let next: Option<Shared> = match &self.tabs[i].shared {
                None => None,
                Some(s) => {
                    let at: usize = find_agent(running, s.name.as_str());
                    if at < running.len() {
                        let agent = &running[at];
                        let pid = if agent.pid.is_some() {
                            agent.pid
                        } else {
                            s.pid
                        };
                        let profile = if agent.profile.is_some() {
                            copy_text(&agent.profile)
                        } else {
                            copy_text(&s.profile)
                        };
                        let label = match &agent.label {
                            Some(l) => l.clone(),
                            None => s.label.clone(),
                        };
                        Some(Shared { name: s.name.clone(), label, pid, activity: agent.activity, profile })
                    } else {
                        None
                    }
                },
            };
            if next.is_some() {
                self.tabs[i].shared = next;
            }
            assert(self.tabs@[i as int] == heard(tab, running@));
            i += 1;
        }
        assert(self.tabs@ =~= heard_all(was, running@));
    }

    /// Put tabs behind the others for the sessions no tab holds.
    fn welcome(&mut self, running: &Vec<Running>, order: &Vec<usize>) -> (r: bool)
        requires
            lists_each(order@, running@.len() as int),
        ensures
            ({
                let picks = newcomers(order@, running@, old(self).tabs@);
                &&& r == (picks.len() > 0)
                &&& final(self).tabs@.len() == old(self).tabs@.len() + picks.len()
                &&& final(self).tabs@.take(old(self).tabs@.len() as int) == old(self).tabs@
                &&& stand_for(final(self).tabs@.skip(old(self).tabs@.len() as int), running@, picks)
                &&& *final(self) == (App { tabs: final(self).tabs, ..*old(self) })
            }),
    {
        let mine = self.open_rmux();
        let ghost was = self.tabs@;
        let ghost n0 = was.len() as int;
        let mut arrived = false;
        let mut i: usize = 0;
        assert(self.tabs@.take(n0) =~= was);
        assert(order@.take(0) =~= Seq::<usize>::empty());
        while i < order.len()
            invariant
                i <= order@.len(),
                n0 == was.len(),
                was == old(self).tabs@,
                lists_each(order@, running@.len() as int),
                forall|name: Seq<char>| #[trigger] mine@.contains(name) <==> holds(was, name),
                *self == (App { tabs: self.tabs, ..*old(self) }),
                self.tabs@.len() >= n0,
                self.tabs@.take(n0) == was,
                stand_for(self.tabs@.skip(n0), running@, newcomers(order@.take(i as int), running@, was)),
                arrived == (self.tabs@.len() > n0),
            decreases order@.len() - i,
        {
            let at: usize = order[i];
            let ghost before = self.tabs@;
            let ghost picks = newcomers(order@.take(i as int), running@, was);
            proof {
                assert(order@.take(i + 1).drop_last() =~= order@.take(i as int));
                assert(order@.take(i + 1).last() == at);
            }
            if !mine.contains(running[at].name.as_str()) {
                self.tabs.push(Tab::shared(&running[at]));
                arrived = true;
                proof {
                    let tail = self.tabs@.skip(n0);
                    assert(self.tabs@.take(n0) =~= before.take(n0));
                    assert forall|k: int| 0 <= k < picks.len() + 1 implies stands_for(
                        #[trigger] tail[k],
                        running@[picks.push(at)[k] as int],
                    ) by {
                        if k < picks.len() {
                            assert(tail[k] == before.skip(n0)[k]);
                        }
                    }
                }
            }
            i += 1;
        }
        assert(order@.take(i as int) =~= order@);
        arrived
    }

    /// What a sweep leaves of a state: `order` is the sessions in the order of
    /// the bar, and `landed` the state once the tabs whose session is gone have
    /// left and the view has landed.
    pub open spec fn reconciled(
        &self,
        running: Seq<Running>,
        alive: Set<Seq<char>>,
        order: Seq<usize>,
        landed: App,
        after: App,
    ) -> bool {
        let keep = presence(self.tabs@, running, alive);
        let kept = kept_by(self.tabs@, keep);
        let gone = gone_by(keep);
        let now = heard_all(kept, running);
        let picks = newcomers(order, running, now);
        &&& lists_each(order, running.len() as int)
        &&& in_order(order, bar_keys(running), true)
        &&& if gone.len() == 0 {
            landed.tabs@ == self.tabs@ && landed == (App { tabs: landed.tabs, ..*self })
        } else {
            self.landed(self.tab as int, gone, kept, landed)
        }
        &&& after.tabs@.len() == now.len() + picks.len()
        &&& after.tabs@.take(now.len() as int) == now
        &&& stand_for(after.tabs@.skip(now.len() as int), running, picks)
        &&& after.effects@ == landed.effects@.push(Effect::PublishStates)
        &&& after == (App {
            tabs: after.tabs,
            effects: after.effects,
            shared_at: Some(self.now),
            needs_redraw: landed.needs_redraw || picks.len() > 0,
            ..landed
        })
    }

    /// Reconcile the tab bar against every session on this machine, so that all
    /// dashboards running here show one set of tabs.
    ///
    /// `running` is the listing and `alive` the sessions that were asked for
    /// because the listing did not hold them, and answered. Tabs whose session is
    /// gone are retired; those that stay learn what the multiplexer says of them;
    /// sessions no tab holds are put behind, the arranged ones first and the
    /// others oldest first.
    pub fn sync_shared_tabs(&mut self, running: &Vec<Running>, alive: &KeySet)
        ensures
            if old(self).shared_at is Some && old(self).now - (old(self).shared_at->0) < SHARE_EVERY {
                *final(self) == *old(self)
            } else {
                exists|order: Seq<usize>, landed: App| #[trigger]
                    old(self).reconciled(running@, alive@, order, landed, *final(self))
            },
    {
        if !self.share_due() {
            return;
        }
        let was: usize = self.tab;
        let mut keep: Vec<bool> = Vec::new();
        let mut i: usize = 0;
        while i < self.tabs.len()
            invariant
                i <= self.tabs@.len(),
                *self == *old(self),
                keep@ =~= presence(self.tabs@.take(i as int), running@, alive@),
            decreases self.tabs@.len() - i,
        {
            let stays = match &self.tabs[i].shared {
                None => true,
                Some(s) => find_agent(running, s.name.as_str()) < running.len() || alive.contains(s.name.as_str()),
            };
            keep.push(stays);
            i += 1;
        }
        assert(self.tabs@.take(i as int) =~= self.tabs@);
        proof {
            all_kept(self.tabs@, keep@);
        }
        self.retire(was, &keep);
        let ghost landed = *self;
        self.shared_at = Some(self.now);
        self.hear(running);
        self.ask(Effect::PublishStates);
        let order = in_tab_order_of(running);
        let ghost now = self.tabs@;
        let arrived = self.welcome(running, &order);
        if arrived {
            self.needs_redraw = true;
        }
        proof {
            let kept = kept_by(old(self).tabs@, keep@);
            assert(now == heard_all(kept, running@));
            assert(stand_for(self.tabs@.skip(now.len() as int), running@, newcomers(order@, running@, now)));
            assert(in_order(order@, bar_keys(running@), true));
            assert(old(self).reconciled(running@, alive@, order@, landed, *self));
        }
    }
}

proof fn all_kept(tabs: Seq<Tab>, keep: Seq<bool>)
    requires
        tabs.len() == keep.len(),
    ensures
        gone_by(keep).len() == 0 ==> kept_by(tabs, keep) == tabs,
    decreases keep.len(),
{
    if keep.len() > 0 {
        all_kept(tabs.drop_last(), keep.drop_last());
        assert(tabs.drop_last().push(tabs.last()) =~= tabs);
    }
}

impl App {
    /// Whether `mid` is the state with the tab in view rid of the session it
    /// stands for, and the session's end asked for.
    pub open spec fn let_session_go(&self, mid: App) -> bool {
        let at = self.tab - 1;
        let s = self.tabs@[at].shared->0;
        &&& mid.tabs@ == self.tabs@.update(at, Tab { shared: None, ..self.tabs@[at] })
        &&& mid.effects@ == self.effects@.push(Effect::KillSession { name: s.name, label: s.label })
        &&& mid == (App { tabs: mid.tabs, effects: mid.effects, ..*self })
    }

    /// Whether `mid` is the state with the focused pane out of its tab, and the
    /// agent's end asked for where the agent is ours.
    pub open spec fn let_pane_go(&self, mid: App) -> bool {
        let at = self.tab - 1;
        let t = self.tabs@[at];
        let pane = t.panes@[t.focus as int];
        let now = mid.tabs@[at];
        &&& mid.tabs@.len() == self.tabs@.len()
        &&& forall|i: int| 0 <= i < self.tabs@.len() && i != at ==> #[trigger] mid.tabs@[i] == self.tabs@[i]
        &&& now.panes@ == t.panes@.remove(t.focus as int)
        &&& now.focus == (if t.focus < now.panes@.len() {
            t.focus as int
        } else if now.panes@.len() == 0 {
            0
        } else {
            now.panes@.len() - 1
        })
        &&& now.shared == t.shared
        &&& mid.effects@ == (if pane.owned {
            self.effects@.push(Effect::KillAgent { pid: pane.agent_of(), label: pane.label })
        } else {
            self.effects@
        })
        &&& mid == (App { tabs: mid.tabs, effects: mid.effects, ..*self })
    }

    /// What closing the pane in front leaves of a state.
    pub open spec fn closed(&self, after: App) -> bool {
        let on = 1 <= self.tab <= self.tabs@.len();
        let t = self.tabs@[self.tab - 1];
        if !on {
            after == *self
        } else if t.apart() {
            exists|mid: App| #[trigger] self.let_session_go(mid) && mid.dropped(after)
        } else if t.focus >= t.panes@.len() {
            after == *self
        } else if t.panes@[t.focus as int].owned {
            exists|mid: App| #[trigger] self.let_pane_go(mid) && mid.dropped(after)
        } else {
            exists|mid: App, closed: App|
                {
                    &&& #[trigger] self.let_pane_go(mid)
                    &&& #[trigger] mid.dropped(closed)
                    &&& closed.said(
                        "Closed the view of "@ + t.panes@[t.focus as int].label@ + " — it is not cctop's to stop"@,
                        after,
                    )
                }
        }
    }

    /// Close the focused pane, ending the agent behind it.
    ///
    /// Closing a window is meant to be the end of it. The exception is a pane
    /// onto somebody else's agent, which is only closed, and said to be. A tab
    /// that stands for a session has no pane to close, but it is the only handle
    /// on screen for that agent, so its session is ended instead.
    #[verifier::rlimit(50)]
    pub fn close_pane(&mut self)
        ensures
            old(self).closed(*final(self)),
    {
        if self.tab == 0 || self.tab - 1 >= self.tabs.len() {
            return;
        }
        let at: usize = self.tab - 1;
        if self.tabs[at].detached() {
            let shared = self.tabs[at].shared.take();
            match shared {
                Some(s) => {
                    self.ask(Effect::KillSession { name: s.name, label: s.label });
                    assert(self.tabs@ =~= old(self).tabs@.update(at as int, self.tabs@[at as int]));
                    let ghost mid = *self;
                    assert(old(self).let_session_go(mid));
                    self.drop_empty_tabs();
                },
                None => {},
            }
            return;
        }
        let focus: usize = self.tabs[at].focus;
        if focus >= self.tabs[at].panes.len() {
            return;
        }
        let pane = self.tabs[at].panes.remove(focus);
        let left: usize = self.tabs[at].panes.len();
        if focus >= left {
            self.tabs[at].focus = if left == 0 {
                0
            } else {
                left - 1
            };
        }
        let label = pane.label.clone();
        let owned = pane.owned;
        if owned {
            let pid = pane.agent();
            self.ask(Effect::KillAgent { pid, label: pane.label });
        }
        let ghost mid = *self;
        assert(old(self).let_pane_go(mid));
        self.drop_empty_tabs();
        let ghost closed = *self;
        if !owned {
            let mut s = cat("Closed the view of ", label.as_str());
            s.append(" — it is not cctop's to stop");
            self.set_status(s);
            assert(mid.dropped(closed));
        }
    }

    /// End the focused pane's agent outright: another name for
    /// [`App::close_pane`].
    pub fn kill_pane(&mut self)
        ensures
            old(self).closed(*final(self)),
    {
        self.close_pane();
    }

    /// What came of ending the session a tab stood for.
    pub fn session_stopped(&mut self, label: &str, answer: Result<(), String>)
        ensures
            old(self).said(
                match answer {
                    Err(error) => "Could not stop "@ + label@ + ": "@ + error@,
                    Ok(_) => "Stopped "@ + label@,
                },
                *final(self),
            ),
    {
        let s = match answer {
            Err(error) => {
                let mut s = cat("Could not stop ", label);
                s.append(": ");
                s.append(error.as_str());
                s
            },
            Ok(_) => cat("Stopped ", label),
        };
        self.set_status(s);
    }

    /// What came of ending the agent of a pane that was closed.
    pub fn agent_stopped(&mut self, label: &str, answer: Result<(), String>)
        ensures
            old(self).said(
                match answer {
                    Err(error) => "Closed "@ + label@ + ", but could not stop it: "@ + error@,
                    Ok(_) => "Stopped "@ + label@,
                },
                *final(self),
            ),
    {
        let s = match answer {
            Err(error) => {
                let mut s = cat("Closed ", label);
                s.append(", but could not stop it: ");
                s.append(error.as_str());
                s
            },
            Ok(_) => cat("Stopped ", label),
        };
        self.set_status(s);
    }

    /// Show the agent running as `pid`, reusing the pane already on it rather
    /// than opening a second window onto one terminal.
    ///
    /// A pane is a match on either pid it has: the one it hosts, and the agent's
    /// own. The agent may be one a tab stands for instead, and switching there
    /// takes a client onto it. Only when neither is found is `view` used, which
    /// is the window the machine could open onto it. Returns whether the agent is
    /// shown.
    pub fn open_view(&mut self, pid: u32, view: Option<Pane>) -> (r: bool)
        ensures
            ({
                let i = tab_onto(old(self).tabs@, pid);
                let k = tab_of(old(self).tabs@, pid);
                let n = old(self).tabs@.len() as int;
                if i < n {
                    &&& r
                    &&& exists|mid: App|
                        {
                            &&& mid.tabs@ == old(self).tabs@.update(
                                i,
                                Tab { focus: pane_onto(old(self).tabs@[i].panes@, pid) as usize, ..old(self).tabs@[i] },
                            )
                            &&& mid == (App { tabs: mid.tabs, ..*old(self) })
                            &&& #[trigger] mid.went(i + 1, *final(self))
                        }
                } else if k < n {
                    r && old(self).went(k + 1, *final(self))
                } else {
                    match view {
                        None => !r && *final(self) == *old(self),
                        Some(pane) => {
                            &&& r
                            &&& exists|mid: App|
                                {
                                    &&& mid.tabs@.len() == n + 1
                                    &&& mid.tabs@.take(n) == old(self).tabs@
                                    &&& mid.tabs@[n].panes@ == seq![pane]
                                    &&& mid.tabs@[n].focus == 0
                                    &&& mid.tabs@[n].shared is None
                                    &&& mid == (App { tabs: mid.tabs, ..*old(self) })
                                    &&& #[trigger] mid.went(n + 1, *final(self))
                                }
                        },
                    }
                }
            }),
    {
        let i: usize = find_tab_onto(&self.tabs, pid);
        if i < self.tabs.len() {
            let focus: usize = find_pane(&self.tabs[i].panes, pid);
            self.tabs[i].focus = focus;
            let ghost mid = *self;
            assert(mid.tabs@ =~= old(self).tabs@.update(i as int, mid.tabs@[i as int]));
            self.go_to_tab(i + 1);
            return true;
        }
        let k: usize = find_tab_of(&self.tabs, pid);
        if k < self.tabs.len() {
            self.go_to_tab(k + 1);
            return true;
        }
        match view {
            None => false,
            Some(pane) => {
                let ghost n = self.tabs@.len() as int;
                self.tabs.push(Tab::new(pane));
                let ghost mid = *self;
                assert(mid.tabs@.take(n) =~= old(self).tabs@);
                let last: usize = self.tabs.len();
                self.go_to_tab(last);
                assert(mid.went(n + 1, *self));
                true
            },
        }
    }

    /// Take up the sessions already running on this machine, in the order of the
    /// bar, and look at the first.
    ///
    /// They all arrive as tabs that stand for a session; only the one put on
    /// screen takes a client.
    pub fn restore_running_tabs(&mut self, running: &Vec<Running>)
        ensures
            exists|order: Seq<usize>, mid: App|
                {
                    &&& lists_each(order, running@.len() as int)
                    &&& in_order(order, bar_keys(running@), true)
                    &&& mid.tabs@.len() == old(self).tabs@.len() + running@.len()
                    &&& mid.tabs@.take(old(self).tabs@.len() as int) == old(self).tabs@
                    &&& #[trigger] stand_for(mid.tabs@.skip(old(self).tabs@.len() as int), running@, order)
                    &&& mid == (App { tabs: mid.tabs, ..*old(self) })
                    &&& if mid.tabs@.len() == 0 {
                        *final(self) == mid
                    } else {
                        mid.went(1, *final(self))
                    }
                },
    {
        let order = in_tab_order_of(running);
        let ghost n0 = self.tabs@.len() as int;
        let mut i: usize = 0;
        assert(self.tabs@.take(n0) =~= self.tabs@);
        while i < order.len()
            invariant
                i <= order@.len(),
                n0 == old(self).tabs@.len(),
                lists_each(order@, running@.len() as int),
                *self == (App { tabs: self.tabs, ..*old(self) }),
                self.tabs@.len() == n0 + i,
                self.tabs@.take(n0) == old(self).tabs@,
                forall|k: int| 0 <= k < i ==> stands_for(#[trigger] self.tabs@[n0 + k], running@[order@[k] as int]),
            decreases order@.len() - i,
        {
            let ghost before = self.tabs@;
            let at: usize = order[i];
            self.tabs.push(Tab::shared(&running[at]));
            proof {
                assert(self.tabs@.take(n0) =~= before.take(n0));
                assert forall|k: int| 0 <= k < i + 1 implies stands_for(
                    #[trigger] self.tabs@[n0 + k],
                    running@[order@[k] as int],
                ) by {
                    if k < i {
                        assert(self.tabs@[n0 + k] == before[n0 + k]);
                    }
                }
            }
            i += 1;
        }
        let ghost mid = *self;
        proof {
            let tail = mid.tabs@.skip(n0);
            assert forall|k: int| 0 <= k < order@.len() implies stands_for(#[trigger] tail[k], running@[order@[k] as int]) by {
                assert(tail[k] == mid.tabs@[n0 + k]);
            }
            assert(stand_for(tail, running@, order@));
            assert(in_order(order@, bar_keys(running@), true));
        }
        if self.tabs.len() > 0 {
            self.go_to_tab(1);
        }
    }
}

proof fn a_kept_tab_has_its_place(tabs: Seq<Tab>, keep: Seq<bool>, i: int)
    requires
        tabs.len() == keep.len(),
        0 <= i < tabs.len(),
        keep[i],
    ensures
        kept_by(tabs.take(i), keep.take(i)).len() < kept_by(tabs, keep).len(),
        kept_by(tabs, keep)[kept_by(tabs.take(i), keep.take(i)).len() as int] == tabs[i],
    decreases tabs.len(),
{
    let n = tabs.len() - 1;
    let before = kept_by(tabs.drop_last(), keep.drop_last());
    if i < n {
        a_kept_tab_has_its_place(tabs.drop_last(), keep.drop_last(), i);
        assert(tabs.drop_last().take(i) =~= tabs.take(i));
        assert(keep.drop_last().take(i) =~= keep.take(i));
    } else {
        assert(tabs.take(i) =~= tabs.drop_last());
        assert(keep.take(i) =~= keep.drop_last());
    }
}

/// The tabs that stay are those that were to be kept, behind the kept ones that stood
/// before them.
pub proof fn the_tabs_to_keep_stay_in_order(tabs: Seq<Tab>, keep: Seq<bool>, i: int)
    requires
        tabs.len() == keep.len(),
        0 <= i < tabs.len(),
        keep[i],
    ensures
        kept_by(tabs, keep)[kept_by(tabs.take(i), keep.take(i)).len() as int] == tabs[i],
        (forall|j: int| 0 <= j < keep.len() ==> #[trigger] keep[j]) ==> kept_by(tabs, keep) == tabs,
        (forall|j: int| 0 <= j < keep.len() ==> !#[trigger] keep[j]) ==> kept_by(tabs, keep).len() == 0,
{
    a_kept_tab_has_its_place(tabs, keep, i);
    if forall|j: int| 0 <= j < keep.len() ==> #[trigger] keep[j] {
        all_are_kept(tabs, keep);
    }
}

proof fn all_are_kept(tabs: Seq<Tab>, keep: Seq<bool>)
    requires
        tabs.len() == keep.len(),
        forall|j: int| 0 <= j < keep.len() ==> #[trigger] keep[j],
    ensures
        kept_by(tabs, keep) == tabs,
    decreases tabs.len(),
{
    if tabs.len() > 0 {
        assert(keep[keep.len() - 1]);
        assert forall|j: int| 0 <= j < keep.drop_last().len() implies #[trigger] keep.drop_last()[j] by {
            assert(keep[j]);
        }
        all_are_kept(tabs.drop_last(), keep.drop_last());
        assert(kept_by(tabs, keep) =~= tabs);
    } else {
        assert(kept_by(tabs, keep) =~= tabs);
    }
}

/// A session is found under its own name, the first of them, and under none where none
/// has it.
pub proof fn a_session_is_found_by_its_name(running: Seq<Running>, name: Seq<char>, k: int)
    requires
        0 <= k <= running.len(),
        forall|i: int| 0 <= i < k ==> (#[trigger] running[i]).name@ != name,
        k < running.len() ==> running[k].name@ == name,
    ensures
        agent_place(running, name) == k,
    decreases k,
{
    if k > 0 {
        assert(running[0].name@ != name);
        assert forall|i: int| 0 <= i < k - 1 implies (#[trigger] running.skip(1)[i]).name@ != name by {
            assert(running.skip(1)[i] == running[i + 1]);
        }
        a_session_is_found_by_its_name(running.skip(1), name, k - 1);
    }
}

/// A tab that stands for a session takes on what the multiplexer says of that session,
/// and keeps what it does not say; a tab that stands for none is left alone.
pub proof fn a_tab_hears_of_its_own_session(tab: Tab, running: Seq<Running>, k: int)
    requires
        tab.shared is Some,
        0 <= k < running.len(),
        running[k].name@ == tab.shared->0.name@,
        forall|i: int| 0 <= i < k ==> (#[trigger] running[i]).name@ != tab.shared->0.name@,
    ensures
        ({
            let now = heard(tab, running).shared->0;
            &&& heard(tab, running).panes == tab.panes
            &&& now.name == tab.shared->0.name
            &&& now.activity == running[k].activity
            &&& running[k].pid is Some ==> now.pid == running[k].pid
            &&& running[k].pid is None ==> now.pid == tab.shared->0.pid
            &&& running[k].label is Some ==> now.label == running[k].label->0
            &&& running[k].label is None ==> now.label == tab.shared->0.label
            &&& running[k].profile is None ==> now.profile == tab.shared->0.profile
        }),
{
    a_session_is_found_by_its_name(running, tab.shared->0.name@, k);
}

/// The sessions that get a tab are those that no tab holds yet, in the order they are
/// listed in.
pub proof fn only_newcomers_get_a_tab(order: Seq<usize>, running: Seq<Running>, tabs: Seq<Tab>)
    ensures
        newcomers(order, running, tabs) == order.filter(|i: usize| !holds(tabs, running[i as int].name@)),
    decreases order.len(),
{
    reveal(Seq::filter);
    if order.len() > 0 {
        only_newcomers_get_a_tab(order.drop_last(), running, tabs);
    }
}

/// A process is found in the first pane that is onto it or onto its agent.
pub proof fn a_pane_is_found_by_its_process(panes: Seq<Pane>, pid: u32, k: int)
    requires
        0 <= k <= panes.len(),
        forall|i: int| 0 <= i < k ==> (#[trigger] panes[i]).pid != pid && panes[i].agent_of() != pid,
        k < panes.len() ==> panes[k].pid == pid || panes[k].agent_of() == pid,
    ensures
        pane_onto(panes, pid) == k,
    decreases k,
{
    if k > 0 {
        assert(panes[0].pid != pid && panes[0].agent_of() != pid);
        assert forall|i: int| 0 <= i < k - 1 implies (#[trigger] panes.skip(1)[i]).pid != pid && panes.skip(1)[i].agent_of()
            != pid by {
            assert(panes.skip(1)[i] == panes[i + 1]);
        }
        a_pane_is_found_by_its_process(panes.skip(1), pid, k - 1);
    }
}

/// A process is found in the first tab that stands for it.
pub proof fn a_tab_is_found_by_its_process(tabs: Seq<Tab>, pid: u32, k: int)
    requires
        0 <= k <= tabs.len(),
        forall|i: int| 0 <= i < k ==> !((#[trigger] tabs[i]).shared is Some && tabs[i].shared->0.pid == Some(pid)),
        k < tabs.len() ==> tabs[k].shared is Some && tabs[k].shared->0.pid == Some(pid),
    ensures
        tab_of(tabs, pid) == k,
    decreases k,
{
    if k > 0 {
        assert(!(tabs[0].shared is Some && tabs[0].shared->0.pid == Some(pid)));
        assert forall|i: int| 0 <= i < k - 1 implies !((#[trigger] tabs.skip(1)[i]).shared is Some && tabs.skip(1)[i].shared->0.pid
            == Some(pid)) by {
            assert(tabs.skip(1)[i] == tabs[i + 1]);
        }
        a_tab_is_found_by_its_process(tabs.skip(1), pid, k - 1);
    }
}

/// Closing a pane leaves the others in order, puts the keyboard on the one that stood
/// behind it, or on the last, and asks for an agent's end only where the agent is ours.
pub proof fn closing_a_pane_leaves_the_others(app: App, mid: App, i: int)
    requires
        1 <= app.tab <= app.tabs@.len(),
        app.tabs@[app.tab - 1].focus < app.tabs@[app.tab - 1].panes@.len(),
        app.let_pane_go(mid),
    ensures
        ({
            let was = app.tabs@[app.tab - 1];
            let now = mid.tabs@[app.tab - 1];
            let at = was.focus as int;
            &&& now.panes@.len() == was.panes@.len() - 1
            &&& 0 <= i < at ==> now.panes@[i] == was.panes@[i]
            &&& at <= i < now.panes@.len() ==> now.panes@[i] == was.panes@[i + 1]
            &&& at + 1 < was.panes@.len() ==> now.panes@[now.focus as int] == was.panes@[at + 1]
            &&& at + 1 == was.panes@.len() && at > 0 ==> now.panes@[now.focus as int] == was.panes@[at - 1]
            &&& !was.panes@[at].owned ==> mid.effects@ == app.effects@
            &&& was.panes@[at].owned ==> mid.effects@ == app.effects@.push(
                Effect::KillAgent { pid: was.panes@[at].agent_of(), label: was.panes@[at].label },
            )
            &&& 0 <= i < app.tabs@.len() && i != app.tab - 1 ==> mid.tabs@[i] == app.tabs@[i]
        }),
{
}

/// A tab stays for as long as its session is listed or answers, and a tab of no session
/// always does.
pub proof fn a_tab_stays_with_its_session(tab: Tab, running: Seq<Running>, alive: Set<Seq<char>>, k: int)
    ensures
        tab.shared is None ==> still_there(tab, running, alive),
        tab.shared matches Some(s) ==> {
            &&& alive.contains(s.name@) ==> still_there(tab, running, alive)
            &&& 0 <= k < running.len() && running[k].name@ == s.name@ ==> still_there(tab, running, alive)
            &&& !alive.contains(s.name@) && (forall|i: int| 0 <= i < running.len() ==> (#[trigger] running[i]).name@
                != s.name@) ==> !still_there(tab, running, alive)
        },
{
    if let Some(s) = tab.shared {
        if 0 <= k < running.len() && running[k].name@ == s.name@ {
            a_listed_session_has_a_place(running, s.name@, k);
        }
        if forall|i: int| 0 <= i < running.len() ==> (#[trigger] running[i]).name@ != s.name@ {
            a_session_is_found_by_its_name(running, s.name@, running.len() as int);
        }
    }
}

proof fn a_listed_session_has_a_place(running: Seq<Running>, name: Seq<char>, k: int)
    requires
        0 <= k < running.len(),
        running[k].name@ == name,
    ensures
        agent_place(running, name) <= k,
    decreases k,
{
    if k > 0 && running[0].name@ != name {
        assert(running.skip(1)[k - 1] == running[k]);
        a_listed_session_has_a_place(running.skip(1), name, k - 1);
    }
}

} // verus!
