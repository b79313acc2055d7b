//! Which finished turns you have not looked at yet.
//!
//! A session whose turn is over stays that way for as long as the agent sits at
//! its prompt, so its colour says "your move" about the turn that ended a minute
//! ago and the one that ended yesterday alike. This is the difference: a session
//! that was *seen working* and then stopped, while you were not looking at it,
//! is "done, unseen" until you do look.

use vstd::prelude::*;

use crate::keys::KeySet;
use crate::model::ActivityState;
use crate::text::same;

verus! {

/// What a session is doing, as far as the unseen mark cares.
#[derive(Debug, Clone, Copy, PartialEq, Eq, Structural)]
pub enum Phase {
    /// Mid-turn.
    Working,
    /// The turn is over and the prompt is yours.
    Stopped,
    /// Anything else: blocked on a question, sitting in an API error. Neither
    /// arms nor fires the mark.
    Other,
}

impl Phase {
    /// The phase of a row, read the way the status dot reads it.
    pub fn of(state: ActivityState) -> (r: Phase)
        ensures
            r == (match state {
                ActivityState::Working => Phase::Working,
                ActivityState::WaitingForInput => Phase::Stopped,
                ActivityState::Asking => Phase::Other,
                ActivityState::ApiError => Phase::Other,
            }),
    {
        match state {
            ActivityState::Working => Phase::Working,
            ActivityState::WaitingForInput => Phase::Stopped,
            ActivityState::Asking => Phase::Other,
            ActivityState::ApiError => Phase::Other,
        }
    }
}

/// The sessions seen working since last looked at, and the ones that have since
/// stopped, by [`Session::key`](crate::model::Session::key).
pub struct Seen {
    /// Seen mid-turn, so a stop is a transition worth marking.
    pub working: KeySet,
    /// Stopped while nobody was looking.
    pub done: KeySet,
}

/// The two sets of [`Seen`]: working first, done second.
pub type Marks = (Set<Seq<char>>, Set<Seq<char>>);

/// The marks once one session's phase has been folded in.
pub open spec fn marked(m: Marks, key: Seq<char>, phase: Phase, viewed: Option<&str>) -> Marks {
    let looking = viewed is Some && viewed->0@ == key;
    let (w, d) = match phase {
        Phase::Working => (m.0.insert(key), m.1.remove(key)),
        Phase::Stopped => (m.0.remove(key), if m.0.contains(key) && !looking { m.1.insert(key) } else { m.1 }),
        Phase::Other => m,
    };
    (w, if looking { d.remove(key) } else { d })
}

/// The marks once the first `n` of `live` have been folded in.
pub open spec fn folded(m: Marks, live: Seq<(&str, Phase)>, viewed: Option<&str>, n: nat) -> Marks
    decreases n,
{
    if n == 0 {
        m
    } else {
        marked(folded(m, live, viewed, (n - 1) as nat), live[n - 1].0@, live[n - 1].1, viewed)
    }
}

/// The keys of `live`.
pub open spec fn present(live: Seq<(&str, Phase)>) -> Set<Seq<char>> {
    Set::new(|k: Seq<char>| exists|i: int| 0 <= i < live.len() && (#[trigger] live[i]).0@ == k)
}

/// Whether every session stands in `live` once.
pub open spec fn each_once(live: Seq<(&str, Phase)>) -> bool {
    forall|i: int, j: int| 0 <= i < j < live.len() ==> (#[trigger] live[i]).0@ != (#[trigger] live[j]).0@
}

impl Default for Seen {
    fn default() -> (r: Self)
        ensures
            r.marks() == (Set::<Seq<char>>::empty(), Set::<Seq<char>>::empty()),
    {
        Seen::new()
    }
}

impl Seen {
    /// The two sets.
    pub open spec fn marks(&self) -> Marks {
        (self.working@, self.done@)
    }

    /// Nothing seen yet.
    pub fn new() -> (r: Self)
        ensures
            r.marks() == (Set::<Seq<char>>::empty(), Set::<Seq<char>>::empty()),
    {
        Seen { working: KeySet::new(), done: KeySet::new() }
    }

    /// Fold in where every live session is now, and which one is being looked
    /// at. Returns whether the set of unseen sessions changed, which is a frame
    /// owed.
    ///
    /// `live` is every session still running. One that is missing has ended or
    /// was never live, and is forgotten.
    pub fn observe(&mut self, live: &[(&str, Phase)], viewed: Option<&str>) -> (r: bool)
        ensures
            final(self).working@ == folded(old(self).marks(), live@, viewed, live@.len()).0.intersect(present(live@)),
            final(self).done@ == folded(old(self).marks(), live@, viewed, live@.len()).1.intersect(present(live@)),
            r <==> {
                ||| exists|n: nat| n < live@.len() && folded(old(self).marks(), live@, viewed, n).1
                    != (#[trigger] folded(old(self).marks(), live@, viewed, n + 1)).1
                ||| !folded(old(self).marks(), live@, viewed, live@.len()).1.subset_of(present(live@))
            },
    {
        let mut changed = false;
        let mut here = KeySet::new();
        let mut i: usize = 0;
        let ghost m = self.marks();
        while i < live.len()
            invariant
                i <= live@.len(),
                m == old(self).marks(),
                self.marks() == folded(m, live@, viewed, i as nat),
                here@ == present(live@.take(i as int)),
                changed <==> exists|n: nat| n < i && folded(m, live@, viewed, n).1
                    != (#[trigger] folded(m, live@, viewed, n + 1)).1,
            decreases live@.len() - i,
        {
            let (key, phase) = live[i];
            let ghost before = self.marks();
            here.insert(key.to_owned());
            let looking = match viewed {
                Some(v) => same(v, key),
                None => false,
            };
            let mut moved = false;
            match phase {
                // Working again is a turn in progress, not one waiting to be
                // read: the mark goes, and comes back when this one ends.
                Phase::Working => {
                    self.working.insert(key.to_owned());
                    moved = self.done.remove(key);
                },
                // Only a stop this process watched happen, and nobody else did.
                Phase::Stopped => {
                    if self.working.remove(key) && !looking {
                        moved = self.done.insert(key.to_owned());
                    }
                },
                Phase::Other => {},
            }
            if looking {
                let gone = self.done.remove(key);
                moved = moved || gone;
            }
            changed = changed || moved;
            proof {
                let after = marked(before, key@, phase, viewed);
                assert(folded(m, live@, viewed, (i + 1) as nat) == after);
                assert(before.0.remove(key@) =~= before.0 || before.0.contains(key@));
                assert(self.working@ =~= after.0);
                assert(self.done@ =~= after.1);
                if moved {
                    assert(before.1.contains(key@) != self.done@.contains(key@));
                    assert(folded(m, live@, viewed, i as nat).1 != folded(m, live@, viewed, (i as nat) + 1).1);
                } else {
                    assert(self.done@ =~= before.1);
                }
                assert forall|n: nat| n < i + 1 && folded(m, live@, viewed, n).1 != (#[trigger] folded(
                    m,
                    live@,
                    viewed,
                    n + 1,
                )).1 implies n < i || moved by {}
                let now = live@.take(i + 1);
                let past = live@.take(i as int);
                assert forall|k: Seq<char>| present(now).contains(k) <==> present(past).contains(k) || k == key@ by {
                    assert(now[i as int] == live@[i as int]);
                    if present(past).contains(k) {
                        let j = choose|j: int| 0 <= j < past.len() && (#[trigger] past[j]).0@ == k;
                        assert(now[j].0@ == k);
                    }
                    if present(now).contains(k) {
                        let j = choose|j: int| 0 <= j < now.len() && (#[trigger] now[j]).0@ == k;
                        if j < i {
                            assert(past[j].0@ == k);
                        }
                    }
                }
                assert(present(now) =~= present(past).insert(key@));
            }
            i += 1;
        }
        assert(live@.take(i as int) =~= live@);
        self.working.retain_in(&here);
        let forgot = self.done.retain_in(&here);
        changed || forgot
    }

    /// Whether this session finished a turn you have not looked at.
    pub fn is_done(&self, key: &str) -> (r: bool)
        ensures
            r == self.done@.contains(key@),
    {
        self.done.contains(key)
    }
}

proof fn folded_at(m: Marks, live: Seq<(&str, Phase)>, viewed: Option<&str>, n: nat, key: Seq<char>)
    requires
        n <= live.len(),
        each_once(live),
    ensures
        ({
            let f = folded(m, live, viewed, n);
            &&& !present(live.take(n as int)).contains(key) ==> f.0.contains(key) == m.0.contains(key) && f.1.contains(key)
                == m.1.contains(key)
            &&& forall|i: int| 0 <= i < n && (#[trigger] live[i]).0@ == key ==> {
                let g = marked(m, key, live[i].1, viewed);
                f.0.contains(key) == g.0.contains(key) && f.1.contains(key) == g.1.contains(key)
            }
        }),
    decreases n,
{
    if n > 0 {
        folded_at(m, live, viewed, (n - 1) as nat, key);
        let now = live.take(n as int);
        let past = live.take(n - 1);
        assert(now[n - 1] == live[n - 1]);
        if live[n - 1].0@ == key {
            assert forall|j: int| 0 <= j < past.len() implies (#[trigger] past[j]).0@ != key by {
                assert(live[j].0@ != live[n - 1].0@);
            }
            assert(!present(past).contains(key));
            assert(present(now).contains(key));
        } else {
            assert(present(now).contains(key) ==> present(past).contains(key)) by {
                if present(now).contains(key) {
                    let j = choose|j: int| 0 <= j < now.len() && (#[trigger] now[j]).0@ == key;
                    assert(past[j].0@ == key);
                }
            }
            assert(present(past).contains(key) ==> present(now).contains(key)) by {
                if present(past).contains(key) {
                    let j = choose|j: int| 0 <= j < past.len() && (#[trigger] past[j]).0@ == key;
                    assert(now[j].0@ == key);
                }
            }
        }
    }
}

/// What one look at the machine does to one session's mark, whatever the others
/// did: a stop marks it when it was seen working and is not being looked at,
/// working again or a look takes the mark down, a question leaves it alone, and
/// a session that is no longer live is forgotten.
pub proof fn one_look(m: Marks, live: Seq<(&str, Phase)>, viewed: Option<&str>, key: Seq<char>)
    requires
        each_once(live),
    ensures
        ({
            let f = folded(m, live, viewed, live.len());
            let working = f.0.intersect(present(live));
            let done = f.1.intersect(present(live));
            let looking = viewed is Some && viewed->0@ == key;
            &&& !present(live).contains(key) ==> !working.contains(key) && !done.contains(key)
            &&& forall|i: int| 0 <= i < live.len() && (#[trigger] live[i]).0@ == key ==> {
                &&& working.contains(key) == (match live[i].1 {
                    Phase::Working => true,
                    Phase::Stopped => false,
                    Phase::Other => m.0.contains(key),
                })
                &&& done.contains(key) == (!looking && (match live[i].1 {
                    Phase::Working => false,
                    Phase::Stopped => m.0.contains(key) || m.1.contains(key),
                    Phase::Other => m.1.contains(key),
                }))
            }
        }),
{
    folded_at(m, live, viewed, live.len(), key);
    assert(live.take(live.len() as int) =~= live);
}

/// A turn that ends unwatched is marked, and stays marked while nothing looks:
/// folding the same stop in again changes nothing.
pub proof fn a_stop_is_marked_once(m: Marks, key: &str, viewed: Option<&str>)
    requires
        m.0.contains(key@),
        !(viewed is Some && viewed->0@ == key@),
    ensures
        ({
            let live = seq![(key, Phase::Stopped)];
            let once = folded(m, live, viewed, 1);
            &&& once.1.contains(key@)
            &&& folded(once, live, viewed, 1) == once
            &&& !folded(once, live, Some(key), 1).1.contains(key@)
            &&& !folded(folded(once, live, Some(key), 1), live, None, 1).1.contains(key@)
        }),
{
    let live = seq![(key, Phase::Stopped)];
    reveal_with_fuel(folded, 2);
    let once = folded(m, live, viewed, 1);
    assert(once == marked(m, key@, Phase::Stopped, viewed));
    let again = folded(once, live, viewed, 1);
    assert(again.0 =~= once.0);
    assert(again.1 =~= once.1);
}

/// With every session listed once, a frame is owed exactly when the set of
/// unseen sessions is another one than before.
pub proof fn a_frame_is_owed_for_a_change(m: Marks, live: Seq<(&str, Phase)>, viewed: Option<&str>)
    requires
        each_once(live),
    ensures
        ({
            ||| exists|n: nat| n < live.len() && folded(m, live, viewed, n).1 != (#[trigger] folded(m, live, viewed, n + 1)).1
            ||| !folded(m, live, viewed, live.len()).1.subset_of(present(live))
        }) <==> folded(m, live, viewed, live.len()).1.intersect(present(live)) != m.1,
{
    let f = folded(m, live, viewed, live.len());
    let done = f.1.intersect(present(live));
    let moved = exists|n: nat| n < live.len() && folded(m, live, viewed, n).1 != (#[trigger] folded(
        m,
        live,
        viewed,
        n + 1,
    )).1;
    if moved {
        let n = choose|n: nat| n < live.len() && folded(m, live, viewed, n).1 != (#[trigger] folded(m, live, viewed, n + 1)).1;
        let key = live[n as int].0@;
        folded_at(m, live, viewed, n, key);
        folded_at(m, live, viewed, (n + 1) as nat, key);
        folded_at(m, live, viewed, live.len(), key);
        let a = folded(m, live, viewed, n);
        let b = folded(m, live, viewed, n + 1);
        assert(b == marked(a, key, live[n as int].1, viewed));
        assert forall|k: Seq<char>| k != key implies a.1.contains(k) == b.1.contains(k) by {}
        if a.1.contains(key) == b.1.contains(key) {
            assert(a.1 =~= b.1);
        }
        let past = live.take(n as int);
        assert forall|j: int| 0 <= j < past.len() implies (#[trigger] past[j]).0@ != key by {
            assert(live[j].0@ != live[n as int].0@);
        }
        assert(!present(past).contains(key));
        assert(present(live).contains(key));
        assert(done.contains(key) != m.1.contains(key));
    } else {
        unmoved(m, live, viewed, live.len());
        assert(f.1 == m.1);
        if f.1.subset_of(present(live)) {
            assert(done =~= m.1);
        } else {
            let k = choose|k: Seq<char>| f.1.contains(k) && !present(live).contains(k);
            assert(!done.contains(k));
        }
    }
}

proof fn unmoved(m: Marks, live: Seq<(&str, Phase)>, viewed: Option<&str>, n: nat)
    requires
        n <= live.len(),
        !(exists|k: nat| k < live.len() && folded(m, live, viewed, k).1 != (#[trigger] folded(m, live, viewed, k + 1)).1),
    ensures
        folded(m, live, viewed, n).1 == m.1,
    decreases n,
{
    if n > 0 {
        unmoved(m, live, viewed, (n - 1) as nat);
        assert(folded(m, live, viewed, ((n - 1) as nat) + 1).1 == folded(m, live, viewed, n).1);
    }
}

} // verus!
