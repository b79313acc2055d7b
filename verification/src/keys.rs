//! Sets and maps keyed by a string.

use vstd::prelude::*;

use crate::text::same;

verus! {

/// A set of strings.
pub struct KeySet {
    pub items: Vec<String>,
}

/// Whether `k` is one of `items`.
pub open spec fn listed(items: Seq<String>, k: Seq<char>) -> bool {
    exists|i: int| 0 <= i < items.len() && (#[trigger] items[i])@ == k
}

/// Whether no two of `items` are the same.
pub open spec fn no_twins(items: Seq<String>) -> bool {
    forall|i: int, j: int| 0 <= i < j < items.len() ==> (#[trigger] items[i])@ != (#[trigger] items[j])@
}

impl View for KeySet {
    type V = Set<Seq<char>>;

    open spec fn view(&self) -> Set<Seq<char>> {
        Set::new(|k: Seq<char>| listed(self.items@, k))
    }
}

impl Default for KeySet {
    fn default() -> (r: Self)
        ensures
            r@ == Set::<Seq<char>>::empty(),
            r.tidy(),
    {
        KeySet::new()
    }
}

impl KeySet {
    /// Whether nothing is kept twice.
    pub open spec fn tidy(&self) -> bool {
        no_twins(self.items@)
    }

    /// How many there are, where nothing is kept twice.
    pub proof fn tidy_len(&self)
        requires
            self.tidy(),
        ensures
            self@.finite(),
            self@.len() == self.items@.len(),
    {
        let views = self.items@.map_values(|s: String| s@);
        assert(views.no_duplicates());
        views.unique_seq_to_set();
        assert(views.to_set() =~= self@) by {
            assert forall|k: Seq<char>| views.to_set().contains(k) <==> self@.contains(k) by {
                if self@.contains(k) {
                    let i = choose|i: int| 0 <= i < self.items@.len() && (#[trigger] self.items@[i])@ == k;
                    assert(views[i] == k);
                }
                if views.to_set().contains(k) {
                    let i = choose|i: int| 0 <= i < views.len() && views[i] == k;
                    assert(self.items@[i]@ == k);
                }
            }
        }
        vstd::seq_lib::seq_to_set_is_finite(views);
    }

    /// The empty set.
    pub fn new() -> (r: Self)
        ensures
            r@ == Set::<Seq<char>>::empty(),
            r.items@.len() == 0,
            r.tidy(),
    {
        let r = KeySet { items: Vec::new() };
        assert(r@ =~= Set::<Seq<char>>::empty());
        r
    }

    /// Whether nothing is in the set.
    pub fn is_empty(&self) -> (r: bool)
        ensures
            r == (self@ == Set::<Seq<char>>::empty()),
    {
        if self.items.len() == 0 {
            assert(self@ =~= Set::<Seq<char>>::empty());
            true
        } else {
            assert(self@.contains(self.items@[0]@));
            false
        }
    }

    /// Whether `k` is in the set.
    pub fn contains(&self, k: &str) -> (r: bool)
        ensures
            r == self@.contains(k@),
    {
        let mut i: usize = 0;
        while i < self.items.len()
            invariant
                i <= self.items@.len(),
                forall|j: int| 0 <= j < i ==> (#[trigger] self.items@[j])@ != k@,
            decreases self.items@.len() - i,
        {
            if same(self.items[i].as_str(), k) {
                assert(listed(self.items@, k@));
                return true;
            }
            i += 1;
        }
        false
    }

    /// Put `k` in. Returns whether it was not there before.
    pub fn insert(&mut self, k: String) -> (r: bool)
        ensures
            final(self)@ == old(self)@.insert(k@),
            r == !old(self)@.contains(k@),
            old(self).tidy() ==> final(self).tidy(),
    {
        if self.contains(k.as_str()) {
            assert(self@.insert(k@) =~= self@);
            return false;
        }
        let ghost was = self.items@;
        let ghost kv = k@;
        self.items.push(k);
        proof {
            assert forall|x: Seq<char>| #[trigger] listed(self.items@, x) == (listed(was, x) || x == kv) by {
                assert(self.items@[was.len() as int]@ == kv);
                if listed(was, x) {
                    let i = choose|i: int| 0 <= i < was.len() && (#[trigger] was[i])@ == x;
                    assert(self.items@[i]@ == x);
                }
                if listed(self.items@, x) && x != kv {
                    let i = choose|i: int| 0 <= i < self.items@.len() && (#[trigger] self.items@[i])@ == x;
                    assert(was[i]@ == x);
                }
            }
            assert(self@ =~= old(self)@.insert(kv));
            if old(self).tidy() {
                assert forall|i: int, j: int| 0 <= i < j < self.items@.len() implies (#[trigger] self.items@[i])@ != (
                #[trigger] self.items@[j])@ by {
                    if j == was.len() {
                        assert(listed(was, was[i]@));
                    } else {
                        assert(was[i]@ != was[j]@);
                    }
                }
            }
        }
        true
    }

    /// Take `k` out. Returns whether it was there.
    pub fn remove(&mut self, k: &str) -> (r: bool)
        ensures
            final(self)@ == old(self)@.remove(k@),
            r == old(self)@.contains(k@),
            old(self).tidy() ==> final(self).tidy(),
    {
        let there = self.contains(k);
        let mut kept: Vec<String> = Vec::new();
        let mut i: usize = 0;
        while i < self.items.len()
            invariant
                i <= self.items@.len(),
                forall|x: Seq<char>| #[trigger] listed(kept@, x) <==> x != k@ && listed(self.items@.take(i as int), x),
                self.tidy() ==> no_twins(kept@),
            decreases self.items@.len() - i,
        {
            let ghost was = kept@;
            let one = self.items[i].clone();
            let skip = same(one.as_str(), k);
            if !skip {
                kept.push(one);
            }
            proof {
                let now = self.items@.take(i + 1);
                let past = self.items@.take(i as int);
                assert forall|x: Seq<char>| #[trigger] listed(kept@, x) <==> x != k@ && listed(now, x) by {
                    assert(now[i as int] == self.items@[i as int]);
                    if listed(past, x) {
                        let j = choose|j: int| 0 <= j < past.len() && (#[trigger] past[j])@ == x;
                        assert(now[j]@ == x);
                    }
                    if listed(now, x) {
                        let j = choose|j: int| 0 <= j < now.len() && (#[trigger] now[j])@ == x;
                        if j < i {
                            assert(past[j]@ == x);
                        }
                    }
                    if listed(was, x) {
                        let j = choose|j: int| 0 <= j < was.len() && (#[trigger] was[j])@ == x;
                        assert(kept@[j]@ == x);
                    }
                    if !skip {
                        assert(kept@[was.len() as int]@ == self.items@[i as int]@);
                    }
                    if listed(kept@, x) && !listed(was, x) {
                        let j = choose|j: int| 0 <= j < kept@.len() && (#[trigger] kept@[j])@ == x;
                        if j < was.len() {
                            assert(was[j]@ == x);
                        }
                    }
                }
                if self.tidy() && kept@.len() > was.len() {
                    assert forall|a: int, b: int| 0 <= a < b < kept@.len() implies (#[trigger] kept@[a])@ != (
                    #[trigger] kept@[b])@ by {
                        assert(was[a] == kept@[a]);
                        if b == was.len() {
                            assert(listed(was, was[a]@));
                            assert(listed(past, was[a]@));
                            let j = choose|j: int| 0 <= j < past.len() && (#[trigger] past[j])@ == was[a]@;
                            assert(self.items@[j]@ != self.items@[i as int]@);
                        } else {
                            assert(was[b] == kept@[b]);
                        }
                    }
                }
            }
            i += 1;
        }
        assert(self.items@.take(i as int) =~= self.items@);
        self.items = kept;
        assert(self@ =~= old(self)@.remove(k@));
        there
    }

    /// Keep only what is also in `keep`. Returns whether anything went.
    pub fn retain_in(&mut self, keep: &KeySet) -> (r: bool)
        ensures
            final(self)@ == old(self)@.intersect(keep@),
            r == !(old(self)@.subset_of(keep@)),
            old(self).tidy() ==> final(self).tidy(),
    {
        let mut kept: Vec<String> = Vec::new();
        let mut dropped = false;
        let mut i: usize = 0;
        while i < self.items.len()
            invariant
                i <= self.items@.len(),
                dropped <==> exists|j: int| 0 <= j < i && !keep@.contains((#[trigger] self.items@[j])@),
                forall|x: Seq<char>| #[trigger] listed(kept@, x) <==> keep@.contains(x) && listed(self.items@.take(i as int), x),
                self.tidy() ==> no_twins(kept@),
            decreases self.items@.len() - i,
        {
            let ghost was = kept@;
            let one = self.items[i].clone();
            let stays = keep.contains(one.as_str());
            if stays {
                kept.push(one);
            } else {
                dropped = true;
            }
            proof {
                let now = self.items@.take(i + 1);
                let past = self.items@.take(i as int);
                assert forall|x: Seq<char>| #[trigger] listed(kept@, x) <==> keep@.contains(x) && listed(now, x) by {
                    assert(now[i as int] == self.items@[i as int]);
                    if listed(past, x) {
                        let j = choose|j: int| 0 <= j < past.len() && (#[trigger] past[j])@ == x;
                        assert(now[j]@ == x);
                    }
                    if listed(now, x) {
                        let j = choose|j: int| 0 <= j < now.len() && (#[trigger] now[j])@ == x;
                        if j < i {
                            assert(past[j]@ == x);
                        }
                    }
                    if listed(was, x) {
                        let j = choose|j: int| 0 <= j < was.len() && (#[trigger] was[j])@ == x;
                        assert(kept@[j]@ == x);
                    }
                    if stays {
                        assert(kept@[was.len() as int]@ == self.items@[i as int]@);
                    }
                    if listed(kept@, x) && !listed(was, x) {
                        let j = choose|j: int| 0 <= j < kept@.len() && (#[trigger] kept@[j])@ == x;
                        if j < was.len() {
                            assert(was[j]@ == x);
                        }
                    }
                }
                if self.tidy() && kept@.len() > was.len() {
                    assert forall|a: int, b: int| 0 <= a < b < kept@.len() implies (#[trigger] kept@[a])@ != (
                    #[trigger] kept@[b])@ by {
                        assert(was[a] == kept@[a]);
                        if b == was.len() {
                            assert(listed(was, was[a]@));
                            assert(listed(past, was[a]@));
                            let j = choose|j: int| 0 <= j < past.len() && (#[trigger] past[j])@ == was[a]@;
                            assert(self.items@[j]@ != self.items@[i as int]@);
                        } else {
                            assert(was[b] == kept@[b]);
                        }
                    }
                }
            }
            i += 1;
        }
        assert(self.items@.take(i as int) =~= self.items@);
        proof {
            if dropped {
                let j = choose|j: int| 0 <= j < i && !keep@.contains((#[trigger] self.items@[j])@);
                assert(self@.contains(self.items@[j]@));
            }
            assert forall|x: Seq<char>| !dropped && #[trigger] self@.contains(x) implies keep@.contains(x) by {
                let j = choose|j: int| 0 <= j < self.items@.len() && (#[trigger] self.items@[j])@ == x;
                assert(keep@.contains(self.items@[j]@));
            }
        }
        self.items = kept;
        assert(self@ =~= old(self)@.intersect(keep@));
        dropped
    }

    /// Take everything out.
    pub fn clear(&mut self)
        ensures
            final(self)@ == Set::<Seq<char>>::empty(),
            final(self).tidy(),
    {
        self.items.clear();
        assert(self@ =~= Set::<Seq<char>>::empty());
    }
}

/// A map from strings, in the order its keys were first put in.
pub struct KeyMap<V> {
    pub items: Vec<(String, V)>,
}

/// Where `k` is first found among `items`, or their number.
pub open spec fn place_of<V>(items: Seq<(String, V)>, k: Seq<char>) -> int
    decreases items.len(),
{
    if items.len() == 0 {
        0
    } else if items[0].0@ == k {
        0
    } else {
        1 + place_of(items.skip(1), k)
    }
}

/// What `items` hold under `k`.
pub open spec fn value_of<V>(items: Seq<(String, V)>, k: Seq<char>) -> Option<V> {
    let i = place_of(items, k);
    if i < items.len() {
        Some(items[i].1)
    } else {
        None
    }
}

/// [`place_of`] by what it finds: no key before it is `k`, and it is one.
pub proof fn place_found<V>(items: Seq<(String, V)>, k: Seq<char>, i: int)
    requires
        0 <= i <= items.len(),
        forall|j: int| 0 <= j < i ==> (#[trigger] items[j]).0@ != k,
        i < items.len() ==> items[i].0@ == k,
    ensures
        place_of(items, k) == i,
    decreases items.len(),
{
    if items.len() > 0 && i > 0 {
        let rest = items.skip(1);
        assert(items[0].0@ != k);
        assert forall|j: int| 0 <= j < i - 1 implies (#[trigger] rest[j]).0@ != k by {
            assert(rest[j] == items[j + 1]);
        }
        if i < items.len() {
            assert(rest[i - 1] == items[i]);
        }
        place_found(rest, k, i - 1);
    }
}

/// What [`place_of`] is: the first key that is `k`, or the number of keys.
pub proof fn place_is_first<V>(items: Seq<(String, V)>, k: Seq<char>)
    ensures
        0 <= place_of(items, k) <= items.len(),
        forall|j: int| 0 <= j < place_of(items, k) ==> (#[trigger] items[j]).0@ != k,
        place_of(items, k) < items.len() ==> items[place_of(items, k)].0@ == k,
    decreases items.len(),
{
    if items.len() > 0 && items[0].0@ != k {
        let rest = items.skip(1);
        place_is_first(rest, k);
        let p = place_of(items, k);
        assert forall|j: int| 0 <= j < p implies (#[trigger] items[j]).0@ != k by {
            if j > 0 {
                assert(rest[j - 1] == items[j]);
            }
        }
        if p < items.len() {
            assert(rest[p - 1] == items[p]);
        }
    }
}

/// `items` with `v` under `k`, in place of what was there.
pub open spec fn entered<V>(items: Seq<(String, V)>, k: String, v: V) -> Seq<(String, V)> {
    if place_of(items, k@) < items.len() {
        items.update(place_of(items, k@), (k, v))
    } else {
        items.push((k, v))
    }
}

/// `items` but those under `k`.
pub open spec fn unkeyed<V>(items: Seq<(String, V)>, k: Seq<char>) -> Seq<(String, V)>
    decreases items.len(),
{
    if items.len() == 0 {
        Seq::empty()
    } else if items[0].0@ == k {
        unkeyed(items.skip(1), k)
    } else {
        seq![items[0]] + unkeyed(items.skip(1), k)
    }
}

proof fn unkeyed_values<V>(items: Seq<(String, V)>, k: Seq<char>, x: Seq<char>)
    ensures
        value_of(unkeyed(items, k), x) == (if x == k {
            None
        } else {
            value_of(items, x)
        }),
    decreases items.len(),
{
    if items.len() > 0 {
        let rest = items.skip(1);
        unkeyed_values(rest, k, x);
        place_is_first(rest, x);
        let left = unkeyed(rest, k);
        place_is_first(left, x);
        if items[0].0@ != k {
            let all = seq![items[0]] + left;
            assert(all.skip(1) =~= left);
            assert(all[0] == items[0]);
            if items[0].0@ != x {
                let p = place_of(left, x);
                if p < left.len() {
                    assert(all[p + 1] == left[p]);
                }
                let q = place_of(rest, x);
                if q < rest.len() {
                    assert(items[q + 1] == rest[q]);
                }
            }
        } else if x != k {
            let q = place_of(rest, x);
            if q < rest.len() {
                assert(items[q + 1] == rest[q]);
            }
        }
    }
}

impl<V> KeyMap<V> {
    /// What the map holds under `k`.
    pub open spec fn at(&self, k: Seq<char>) -> Option<V> {
        value_of(self.items@, k)
    }

    /// The map with nothing in it.
    pub fn new() -> (r: Self)
        ensures
            r.items@.len() == 0,
            forall|k: Seq<char>| (#[trigger] r.at(k)) is None,
    {
        KeyMap { items: Vec::new() }
    }

    /// Whether nothing is in the map.
    pub fn is_empty(&self) -> (r: bool)
        ensures
            r == (self.items@.len() == 0),
    {
        self.items.len() == 0
    }

    fn find(&self, k: &str) -> (r: usize)
        ensures
            r == place_of(self.items@, k@),
            r <= self.items@.len(),
    {
        let mut i: usize = 0;
        while i < self.items.len()
            invariant
                i <= self.items@.len(),
                forall|j: int| 0 <= j < i ==> (#[trigger] self.items@[j]).0@ != k@,
            decreases self.items@.len() - i,
        {
            if same(self.items[i].0.as_str(), k) {
                proof {
                    place_found(self.items@, k@, i as int);
                }
                return i;
            }
            i += 1;
        }
        proof {
            place_found(self.items@, k@, i as int);
        }
        i
    }

    /// What is held under `k`.
    pub fn get(&self, k: &str) -> (r: Option<&V>)
        ensures
            match r {
                Some(v) => self.at(k@) == Some(*v),
                None => self.at(k@) is None,
            },
    {
        let i: usize = self.find(k);
        if i < self.items.len() {
            Some(&self.items[i].1)
        } else {
            None
        }
    }

    /// Hold nothing under `k`.
    pub fn remove(&mut self, k: &str)
        ensures
            final(self).items@ == unkeyed(old(self).items@, k@),
            forall|x: Seq<char>|
                #[trigger] final(self).at(x) == (if x == k@ {
                    None
                } else {
                    old(self).at(x)
                }),
    {
        let ghost was = self.items@;
        let ghost mut seen: int = 0;
        let mut i: usize = 0;
        assert(was.skip(0) =~= was);
        assert(Seq::<(String, V)>::empty() + unkeyed(was, k@) =~= unkeyed(was, k@));
        assert(self.items@.take(0) =~= Seq::<(String, V)>::empty());
        while i < self.items.len()
            invariant
                i <= self.items@.len(),
                0 <= seen <= was.len(),
                self.items@.skip(i as int) == was.skip(seen),
                self.items@.take(i as int) + unkeyed(was.skip(seen), k@) == unkeyed(was, k@),
            decreases self.items@.len() - i,
        {
            let ghost held = self.items@;
            let ghost rest = was.skip(seen);
            assert(rest[0] == held.skip(i as int)[0]);
            assert(rest.skip(1) =~= was.skip(seen + 1));
            assert(rest.len() == was.len() - seen);
            if same(self.items[i].0.as_str(), k) {
                self.items.remove(i);
                assert(self.items@.take(i as int) =~= held.take(i as int));
                assert(self.items@.skip(i as int) =~= rest.skip(1));
            } else {
                i += 1;
                assert(held.take(i as int) =~= held.take(i - 1) + seq![rest[0]]);
                assert(held.skip(i as int) =~= rest.skip(1));
                assert(held.take(i as int) + unkeyed(rest.skip(1), k@) =~= held.take(i - 1) + unkeyed(rest, k@));
            }
            proof {
                seen = seen + 1;
            }
        }
        assert(was.skip(seen).len() == 0);
        assert(self.items@ =~= unkeyed(was, k@));
        assert forall|x: Seq<char>| #[trigger] self.at(x) == (if x == k@ {
            None
        } else {
            old(self).at(x)
        }) by {
            unkeyed_values(was, k@, x);
        }
    }

    /// Hold `v` under `k`, in place of what was there.
    pub fn insert(&mut self, k: String, v: V)
        ensures
            final(self).at(k@) == Some(v),
            forall|x: Seq<char>| x != k@ ==> #[trigger] final(self).at(x) == old(self).at(x),
            final(self).items@ == entered(old(self).items@, k, v),
    {
        let i: usize = self.find(k.as_str());
        let ghost was = self.items@;
        let ghost kv = k@;
        let ghost vv = v;
        proof {
            place_is_first(was, kv);
        }
        if i < self.items.len() {
            self.items.set(i, (k, v));
        } else {
            self.items.push((k, v));
        }
        proof {
            let now = self.items@;
            place_found(now, kv, i as int);
            assert(now[i as int].1 == vv);
            assert forall|x: Seq<char>| x != kv implies #[trigger] self.at(x) == old(self).at(x) by {
                place_is_first(was, x);
                let p = place_of(was, x);
                if p < was.len() {
                    assert(now[p] == was[p]);
                    assert forall|j: int| 0 <= j < p implies (#[trigger] now[j]).0@ != x by {
                        if j != i {
                            assert(now[j] == was[j]);
                        }
                    }
                    place_found(now, x, p);
                } else {
                    assert forall|j: int| 0 <= j < now.len() implies (#[trigger] now[j]).0@ != x by {
                        if j != i {
                            assert(now[j] == was[j]);
                        }
                    }
                    place_found(now, x, now.len() as int);
                }
            }
        }
    }
}

/// What is entered under a key is found under it and nowhere else, and what was under
/// any other key still is.
pub proof fn what_is_entered_is_found<V>(items: Seq<(String, V)>, k: String, v: V, other: Seq<char>)
    ensures
        value_of(entered(items, k, v), k@) == Some(v),
        other != k@ ==> value_of(entered(items, k, v), other) == value_of(items, other),
    decreases items.len(),
{
    if items.len() == 0 {
        let all = entered(items, k, v);
        assert(all[0] == (k, v));
        assert(all.skip(1).len() == 0);
        assert(place_of(all.skip(1), other) == 0);
    } else {
        let rest = items.skip(1);
        what_is_entered_is_found(rest, k, v, other);
        let all = entered(items, k, v);
        if items[0].0@ == k@ {
            assert(all[0] == (k, v));
            assert(all.skip(1) =~= rest);
            if other != k@ {
                assert(place_of(all, other) == 1 + place_of(rest, other));
                assert(place_of(items, other) == 1 + place_of(rest, other));
                place_is_inside(rest, other);
            }
        } else {
            place_is_inside(rest, k@);
            assert(all[0] == items[0]);
            assert(all.skip(1) =~= entered(rest, k, v));
            place_is_inside(entered(rest, k, v), k@);
            place_is_inside(entered(rest, k, v), other);
            place_is_inside(rest, other);
        }
    }
}

proof fn place_is_inside<V>(items: Seq<(String, V)>, k: Seq<char>)
    ensures
        0 <= place_of(items, k) <= items.len(),
    decreases items.len(),
{
    if items.len() > 0 {
        place_is_inside(items.skip(1), k);
    }
}

/// What is taken out is no longer found, and what was under any other key still is.
pub proof fn what_is_taken_out_is_gone<V>(items: Seq<(String, V)>, k: Seq<char>, other: Seq<char>)
    ensures
        value_of(unkeyed(items, k), k) is None,
        other != k ==> value_of(unkeyed(items, k), other) == value_of(items, other),
    decreases items.len(),
{
    if items.len() > 0 {
        let rest = items.skip(1);
        what_is_taken_out_is_gone(rest, k, other);
        place_is_inside(rest, other);
        if items[0].0@ != k {
            let all = unkeyed(items, k);
            assert(all[0] == items[0]);
            assert(all.skip(1) =~= unkeyed(rest, k));
            place_is_inside(unkeyed(rest, k), k);
            place_is_inside(unkeyed(rest, k), other);
        }
    } else {
        assert(unkeyed(items, k).len() == 0);
        assert(place_of(unkeyed(items, k), k) == 0);
    }
}

} // verus!
