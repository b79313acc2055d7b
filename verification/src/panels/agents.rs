//! The Subagents panel: what a session handed to others.

use vstd::prelude::*;

use crate::data::SessionData;
use crate::figures::{
    age_text, compact_duration, compact_usd, model_text, percent, percent_of, relative_age, short_model, span_text, usd_text,
};
use crate::model::{ContextUsage, Subagent, SubagentStatus};
use crate::order::{
    closed_letters, closed_letters_of, downwards_is_upwards_reversed, every_row_has_its_place, every_row_listed,
    goes_before, in_order, keys_of, letter_fits, letters, letters_of, lex_irreflexive, lex_lt, lex_transitive, lists_each,
    order_by, sorted, sorting_again_changes_nothing, text_irreflexive, text_total,
};
use crate::styled::{blank, line_of, note, nothing, Ink, Line, LineView, Text};
use crate::text::{cat, cut, dec, decimal, left_in, pad_left, pad_right, right_in, same, truncate};

verus! {

/// What the subagents are ordered by.
#[derive(Debug, Clone, Copy, PartialEq, Eq, Structural)]
pub enum SubagentSort {
    Last,
    Type,
    Model,
    Description,
    Cost,
    Tools,
    Context,
    Duration,
}

impl SubagentSort {
    /// The word an order is written down as.
    pub open spec fn word(self) -> Seq<char> {
        match self {
            SubagentSort::Last => "last"@,
            SubagentSort::Type => "type"@,
            SubagentSort::Model => "model"@,
            SubagentSort::Description => "desc"@,
            SubagentSort::Cost => "cost"@,
            SubagentSort::Tools => "tools"@,
            SubagentSort::Context => "ctx"@,
            SubagentSort::Duration => "dur"@,
        }
    }

    /// The order a word stands for; by last activity where it stands for none.
    pub open spec fn named(s: Seq<char>) -> SubagentSort {
        if s == "type"@ {
            SubagentSort::Type
        } else if s == "model"@ {
            SubagentSort::Model
        } else if s == "desc"@ {
            SubagentSort::Description
        } else if s == "cost"@ {
            SubagentSort::Cost
        } else if s == "tools"@ {
            SubagentSort::Tools
        } else if s == "ctx"@ {
            SubagentSort::Context
        } else if s == "dur"@ {
            SubagentSort::Duration
        } else {
            SubagentSort::Last
        }
    }

    /// The word an order is written down as.
    pub fn key(&self) -> (r: &'static str)
        ensures
            r@ == self.word(),
    {
        match self {
            SubagentSort::Last => "last",
            SubagentSort::Type => "type",
            SubagentSort::Model => "model",
            SubagentSort::Description => "desc",
            SubagentSort::Cost => "cost",
            SubagentSort::Tools => "tools",
            SubagentSort::Context => "ctx",
            SubagentSort::Duration => "dur",
        }
    }

    /// The order a word stands for; by last activity where it stands for none.
    pub fn parse(s: &str) -> (r: Self)
        ensures
            r == SubagentSort::named(s@),
    {
        if same(s, "type") {
            SubagentSort::Type
        } else if same(s, "model") {
            SubagentSort::Model
        } else if same(s, "desc") {
            SubagentSort::Description
        } else if same(s, "cost") {
            SubagentSort::Cost
        } else if same(s, "tools") {
            SubagentSort::Tools
        } else if same(s, "ctx") {
            SubagentSort::Context
        } else if same(s, "dur") {
            SubagentSort::Duration
        } else {
            SubagentSort::Last
        }
    }
}

/// An order that is written down and read again is the same order.
pub proof fn an_order_survives_being_written(sort: SubagentSort)
    ensures
        SubagentSort::named(sort.word()) == sort,
{
    reveal_strlit("last");
    reveal_strlit("type");
    reveal_strlit("model");
    reveal_strlit("desc");
    reveal_strlit("cost");
    reveal_strlit("tools");
    reveal_strlit("ctx");
    reveal_strlit("dur");
    assert("last"@[0] == 'l');
    assert("type"@[0] == 't');
    assert("model"@[0] == 'm');
    assert("desc"@[0] == 'd');
    assert("cost"@[0] == 'c');
    assert("cost"@.len() == 4);
    assert("tools"@.len() == 5);
    assert("type"@.len() == 4);
    assert("tools"@[0] == 't');
    assert("ctx"@[0] == 'c');
    assert("ctx"@.len() == 3);
    assert("dur"@[0] == 'd');
    assert("dur"@.len() == 3);
    assert("desc"@.len() == 4);
}

/// How full a window is, as a key: the ratio's whole part, and its fraction to
/// 64 binary places.
pub open spec fn fullness(c: ContextUsage) -> Seq<u64> {
    if c.compact_at == 0 {
        seq![0u64, 0u64]
    } else {
        seq![
            (c.used / c.compact_at),
            ((c.used % c.compact_at) as u128 * 0x1_0000_0000_0000_0000 / c.compact_at as int) as u64,
        ]
    }
}

/// What an order compares a subagent by. Those that are equal in it are ordered
/// by their ids.
pub open spec fn agent_key(a: Subagent, sort: SubagentSort) -> Seq<u64> {
    (match sort {
        SubagentSort::Last => closed_letters(
            match a.last_active {
                Some(t) => t@,
                None => Seq::empty(),
            },
        ),
        SubagentSort::Type => closed_letters(a.agent_type@),
        SubagentSort::Model => closed_letters(a.model@),
        SubagentSort::Description => closed_letters(a.description@),
        SubagentSort::Cost => seq![a.cost],
        SubagentSort::Tools => seq![a.tool_count],
        SubagentSort::Context => match a.context {
            Some(c) => seq![1u64] + fullness(c),
            None => seq![0u64],
        },
        SubagentSort::Duration => seq![a.duration_ms],
    }) + letters(a.agent_id@)
}

fn agent_key_of(a: &Subagent, sort: SubagentSort) -> (r: Vec<u64>)
    ensures
        r@ == agent_key(*a, sort),
{
    let mut key: Vec<u64> = Vec::new();
    match sort {
        SubagentSort::Last => {
            key = match &a.last_active {
                Some(t) => closed_letters_of(t.as_str()),
                None => {
                    let none = closed_letters_of("");
                    proof {
                        reveal_strlit("");
                        assert(""@ =~= Seq::<char>::empty());
                    }
                    none
                },
            };
        },
        SubagentSort::Type => {
            key = closed_letters_of(a.agent_type.as_str());
        },
        SubagentSort::Model => {
            key = closed_letters_of(a.model.as_str());
        },
        SubagentSort::Description => {
            key = closed_letters_of(a.description.as_str());
        },
        SubagentSort::Cost => {
            key.push(a.cost);
            assert(key@ =~= seq![a.cost]);
        },
        SubagentSort::Tools => {
            key.push(a.tool_count);
            assert(key@ =~= seq![a.tool_count]);
        },
        SubagentSort::Context => match a.context {
            Some(c) => {
                key.push(1);
                if c.compact_at == 0 {
                    key.push(0);
                    key.push(0);
                } else {
                    let r: u128 = (c.used % c.compact_at) as u128;
                    let whole: u128 = c.compact_at as u128;
                    assert(r * 0x1_0000_0000_0000_0000 / (whole as int) < 0x1_0000_0000_0000_0000) by (nonlinear_arith)
                        requires
                            r < whole,
                    ;
                    key.push(c.used / c.compact_at);
                    key.push((r * 0x1_0000_0000_0000_0000 / whole) as u64);
                }
                assert(key@ =~= seq![1u64] + fullness(c));
            },
            None => {
                key.push(0);
                assert(key@ =~= seq![0u64]);
            },
        },
        SubagentSort::Duration => {
            key.push(a.duration_ms);
            assert(key@ =~= seq![a.duration_ms]);
        },
    }
    let mut id = letters_of(a.agent_id.as_str());
    key.append(&mut id);
    key
}

/// What an order compares the subagents by.
pub open spec fn agent_keys(list: Seq<Subagent>, sort: SubagentSort) -> Seq<Seq<u64>> {
    list.map_values(|a: Subagent| agent_key(a, sort))
}

fn order_of(list: &Vec<Subagent>, sort: SubagentSort, asc: bool) -> (r: Vec<usize>)
    ensures
        lists_each(r@, list@.len() as int),
        in_order(r@, agent_keys(list@, sort), asc),
        r@ == sorted(agent_keys(list@, sort), asc),
{
    let mut keys: Vec<Vec<u64>> = Vec::new();
    let mut i: usize = 0;
    while i < list.len()
        invariant
            i <= list@.len(),
            keys@.len() == i,
            forall|j: int| 0 <= j < i ==> (#[trigger] keys@[j])@ == agent_key(list@[j], sort),
        decreases list@.len() - i,
    {
        keys.push(agent_key_of(&list[i], sort));
        i += 1;
    }
    assert(keys_of(keys@) =~= agent_keys(list@, sort));
    order_by(&keys, asc)
}

/// The subagents `order` lists.
pub open spec fn listed(list: Seq<Subagent>, order: Seq<usize>) -> Seq<Subagent> {
    order.map_values(|i: usize| list[i as int])
}

/// Put the subagents in an order, upwards or downwards. Those that it does not
/// tell apart stay as they were.
pub fn sort_subagents(list: &mut Vec<Subagent>, sort: SubagentSort, asc: bool)
    ensures
        final(list)@ == agents_sorted(old(list)@, sort, asc),
        lists_each(sorted(agent_keys(old(list)@, sort), asc), old(list)@.len() as int),
        in_order(sorted(agent_keys(old(list)@, sort), asc), agent_keys(old(list)@, sort), asc),
{
    let order = order_of(list, sort, asc);
    let mut out: Vec<Subagent> = Vec::new();
    let mut i: usize = 0;
    while i < order.len()
        invariant
            i <= order@.len(),
            lists_each(order@, list@.len() as int),
            out@ == listed(list@, order@.take(i as int)),
        decreases order@.len() - i,
    {
        out.push(list[order[i]].clone());
        assert(out@ =~= listed(list@, order@.take(i + 1)));
        i += 1;
    }
    assert(order@.take(i as int) =~= order@);
    *list = out;
}

/// The subagents in an order, upwards or downwards.
pub open spec fn agents_sorted(list: Seq<Subagent>, sort: SubagentSort, asc: bool) -> Seq<Subagent> {
    listed(list, sorted(agent_keys(list, sort), asc))
}

/// Whether no two of the subagents have the same id.
pub open spec fn ids_differ(list: Seq<Subagent>) -> bool {
    forall|i: int, j: int|
        0 <= i < j < list.len() ==> (#[trigger] list[i]).agent_id@ != (#[trigger] list[j]).agent_id@
}

proof fn closing_tells(s: Seq<char>, i: int)
    requires
        0 <= i <= s.len(),
    ensures
        (closed_letters(s)[i] == 0) == (i == s.len()),
        i < s.len() ==> closed_letters(s)[i] == s[i] as u64 + 1,
{
    if i < s.len() {
        letter_fits(s[i]);
    }
}

proof fn what_is_closed_off_ends_alike(s: Seq<char>, t: Seq<char>, x: Seq<u64>, y: Seq<u64>)
    requires
        closed_letters(s) + x == closed_letters(t) + y,
    ensures
        s.len() == t.len(),
        x == y,
{
    let (a, b) = (closed_letters(s) + x, closed_letters(t) + y);
    let m = if s.len() < t.len() {
        s.len() as int
    } else {
        t.len() as int
    };
    closing_tells(s, m);
    closing_tells(t, m);
    assert(a[m] == closed_letters(s)[m]);
    assert(b[m] == closed_letters(t)[m]);
    let k = s.len() as int + 1;
    assert(a.skip(k) =~= x);
    assert(b.skip(k) =~= y);
}

/// Subagents with different ids are told apart by every order.
proof fn ids_tell_keys(a: Subagent, b: Subagent, sort: SubagentSort)
    requires
        agent_key(a, sort) == agent_key(b, sort),
    ensures
        a.agent_id@ == b.agent_id@,
{
    let (x, y) = (letters(a.agent_id@), letters(b.agent_id@));
    let (ka, kb) = (agent_key(a, sort), agent_key(b, sort));
    match sort {
        SubagentSort::Last => {
            let s = match a.last_active {
                Some(t) => t@,
                None => Seq::empty(),
            };
            let t = match b.last_active {
                Some(t) => t@,
                None => Seq::empty(),
            };
            what_is_closed_off_ends_alike(s, t, x, y);
        },
        SubagentSort::Type => what_is_closed_off_ends_alike(a.agent_type@, b.agent_type@, x, y),
        SubagentSort::Model => what_is_closed_off_ends_alike(a.model@, b.model@, x, y),
        SubagentSort::Description => what_is_closed_off_ends_alike(a.description@, b.description@, x, y),
        SubagentSort::Context => {
            assert(ka[0] == kb[0]);
            let k: int = if a.context is Some {
                3
            } else {
                1
            };
            assert(ka[0] == (if a.context is Some {
                1u64
            } else {
                0u64
            }));
            assert(kb[0] == (if b.context is Some {
                1u64
            } else {
                0u64
            }));
            assert(ka.skip(k) =~= x);
            assert(kb.skip(k) =~= y);
        },
        _ => {
            assert(ka.skip(1) =~= x);
            assert(kb.skip(1) =~= y);
        },
    }
    assert(x == y);
    text_irreflexive(a.agent_id@);
    text_total(a.agent_id@, b.agent_id@);
}

proof fn keys_differ(list: Seq<Subagent>, sort: SubagentSort)
    requires
        ids_differ(list),
    ensures
        forall|i: int, j: int|
            0 <= i < j < list.len() ==> #[trigger] agent_keys(list, sort)[i] != #[trigger] agent_keys(list, sort)[j],
{
    assert forall|i: int, j: int| 0 <= i < j < list.len() implies #[trigger] agent_keys(list, sort)[i]
        != #[trigger] agent_keys(list, sort)[j] by {
        if agent_keys(list, sort)[i] == agent_keys(list, sort)[j] {
            ids_tell_keys(list[i], list[j], sort);
        }
    }
}

/// Whether the subagents stand upwards, no two of them alike.
spec fn rises(list: Seq<Subagent>, sort: SubagentSort) -> bool {
    forall|p: int, q: int|
        0 <= p < q < list.len() ==> lex_lt(agent_key(#[trigger] list[p], sort), agent_key(#[trigger] list[q], sort))
}

proof fn sorted_rises(list: Seq<Subagent>, sort: SubagentSort)
    requires
        list.len() <= usize::MAX,
        ids_differ(list),
    ensures
        agents_sorted(list, sort, true).len() == list.len(),
        rises(agents_sorted(list, sort, true), sort),
        forall|a: Subagent| #[trigger] agents_sorted(list, sort, true).contains(a) <==> list.contains(a),
{
    let keys = agent_keys(list, sort);
    let r = sorted(keys, true);
    let out = agents_sorted(list, sort, true);
    every_row_has_its_place(keys, true);
    keys_differ(list, sort);
    assert forall|p: int, q: int| 0 <= p < q < out.len() implies lex_lt(
        agent_key(#[trigger] out[p], sort),
        agent_key(#[trigger] out[q], sort),
    ) by {
        let (i, j) = (r[p] as int, r[q] as int);
        assert(goes_before(keys, true, i, j));
        assert(r[p] != r[q]);
        if i < j {
            assert(keys[i] != keys[j]);
        } else {
            assert(keys[j] != keys[i]);
        }
    }
    assert forall|a: Subagent| #[trigger] out.contains(a) <==> list.contains(a) by {
        if out.contains(a) {
            let p = choose|p: int| 0 <= p < out.len() && out[p] == a;
            assert(r[p] < list.len());
            assert(list[r[p] as int] == a);
        }
        if list.contains(a) {
            let i = choose|i: int| 0 <= i < list.len() && list[i] == a;
            every_row_listed(r, list.len() as int, i);
            let p = choose|p: int| 0 <= p < list.len() && #[trigger] r[p] == i;
            assert(out[p] == a);
        }
    }
}

proof fn one_way_to_rise(s: Seq<Subagent>, t: Seq<Subagent>, sort: SubagentSort)
    requires
        rises(s, sort),
        rises(t, sort),
        forall|a: Subagent| #[trigger] s.contains(a) <==> t.contains(a),
    ensures
        s == t,
    decreases s.len(),
{
    if s.len() == 0 || t.len() == 0 {
        if s.len() > 0 {
            assert(s.contains(s[0]));
        }
        if t.len() > 0 {
            assert(t.contains(t[0]));
            assert(s.contains(t[0]));
        }
        assert(s =~= t);
    } else {
        let (x, y) = (s.last(), t.last());
        assert(s[s.len() - 1] == x);
        assert(t[t.len() - 1] == y);
        assert(s.contains(x));
        assert(t.contains(y));
        assert(s.contains(y));
        let j = choose|j: int| 0 <= j < t.len() && t[j] == x;
        let i = choose|i: int| 0 <= i < s.len() && s[i] == y;
        if j < t.len() - 1 {
            assert(lex_lt(agent_key(t[j], sort), agent_key(t[t.len() - 1], sort)));
            if i < s.len() - 1 {
                assert(lex_lt(agent_key(s[i], sort), agent_key(s[s.len() - 1], sort)));
                lex_transitive(agent_key(x, sort), agent_key(y, sort), agent_key(x, sort));
            }
            lex_irreflexive(agent_key(x, sort));
        }
        let (u, v) = (s.drop_last(), t.drop_last());
        assert forall|a: Subagent| #[trigger] u.contains(a) <==> v.contains(a) by {
            lex_irreflexive(agent_key(x, sort));
            if u.contains(a) {
                let p = choose|p: int| 0 <= p < u.len() && u[p] == a;
                assert(s[p] == a);
                assert(s.contains(a));
                assert(lex_lt(agent_key(s[p], sort), agent_key(s[s.len() - 1], sort)));
                let q = choose|q: int| 0 <= q < t.len() && t[q] == a;
                assert(v[q] == a);
            }
            if v.contains(a) {
                let p = choose|p: int| 0 <= p < v.len() && v[p] == a;
                assert(t[p] == a);
                assert(t.contains(a));
                assert(s.contains(a));
                assert(lex_lt(agent_key(t[p], sort), agent_key(t[t.len() - 1], sort)));
                let q = choose|q: int| 0 <= q < s.len() && s[q] == a;
                assert(u[q] == a);
            }
        }
        assert forall|p: int, q: int| 0 <= p < q < u.len() implies lex_lt(
            agent_key(#[trigger] u[p], sort),
            agent_key(#[trigger] u[q], sort),
        ) by {
            assert(lex_lt(agent_key(s[p], sort), agent_key(s[q], sort)));
        }
        assert forall|p: int, q: int| 0 <= p < q < v.len() implies lex_lt(
            agent_key(#[trigger] v[p], sort),
            agent_key(#[trigger] v[q], sort),
        ) by {
            assert(lex_lt(agent_key(t[p], sort), agent_key(t[q], sort)));
        }
        one_way_to_rise(u, v, sort);
        assert(s =~= u.push(x));
        assert(t =~= v.push(y));
    }
}

/// The same subagents sorted downwards are those sorted upwards in reverse,
/// whatever order either began in.
pub proof fn sorting_downwards_reverses(xs: Seq<Subagent>, ys: Seq<Subagent>, sort: SubagentSort)
    requires
        xs.len() <= usize::MAX,
        xs.to_multiset() == ys.to_multiset(),
        ids_differ(xs),
        ids_differ(ys),
    ensures
        agents_sorted(ys, sort, false) == agents_sorted(xs, sort, true).reverse(),
{
    broadcast use vstd::seq_lib::group_to_multiset_ensures;

    assert(xs.to_multiset().len() == xs.len());
    assert(ys.to_multiset().len() == ys.len());
    sorted_rises(xs, sort);
    sorted_rises(ys, sort);
    let (s, t) = (agents_sorted(xs, sort, true), agents_sorted(ys, sort, true));
    assert forall|a: Subagent| #[trigger] s.contains(a) <==> t.contains(a) by {
        assert(xs.to_multiset().contains(a) == xs.contains(a));
        assert(ys.to_multiset().contains(a) == ys.contains(a));
    }
    one_way_to_rise(s, t, sort);
    keys_differ(ys, sort);
    every_row_has_its_place(agent_keys(ys, sort), true);
    downwards_is_upwards_reversed(agent_keys(ys, sort));
    assert(agents_sorted(ys, sort, false) =~= t.reverse());
}

/// Subagents that are sorted already stay as they are when sorted again.
pub proof fn sorting_twice_is_sorting_once(list: Seq<Subagent>, sort: SubagentSort, asc: bool)
    requires
        list.len() <= usize::MAX,
    ensures
        agents_sorted(agents_sorted(list, sort, asc), sort, asc) == agents_sorted(list, sort, asc),
{
    let keys = agent_keys(list, sort);
    let r = sorted(keys, asc);
    every_row_has_its_place(keys, asc);
    let once = agents_sorted(list, sort, asc);
    assert(agent_keys(once, sort) =~= r.map_values(|i: usize| keys[i as int]));
    sorting_again_changes_nothing(keys, asc);
    assert(agents_sorted(once, sort, asc) =~= once);
}

/// The mark of a subagent, and its ink.
pub open spec fn mark(a: Subagent) -> (Seq<char>, Ink) {
    if a.purged {
        ("◌"@, Ink::Dim)
    } else if a.status == SubagentStatus::Running {
        ("●"@, Ink::Low)
    } else {
        ("○"@, Ink::Dim)
    }
}

/// The ink of a subagent's row.
pub open spec fn row_ink(a: Subagent) -> Ink {
    if a.purged {
        Ink::Dim
    } else if a.status == SubagentStatus::Running {
        Ink::Value
    } else {
        Ink::Gray(250)
    }
}

/// How long ago a subagent was last heard of.
pub open spec fn last_heard(a: Subagent, now: int) -> Seq<char> {
    match (a.last_active, a.started_at) {
        (Some(t), _) => age_text(t@, now),
        (None, Some(t)) => age_text(t@, now),
        (None, None) => "—"@,
    }
}

/// A figure that is unknown of a purged transcript: a zero would read as "did
/// nothing".
pub open spec fn known(a: Subagent, text: Seq<char>) -> Seq<char> {
    if a.purged {
        "—"@
    } else {
        text
    }
}

/// How full a subagent's window is.
pub open spec fn window_share(a: Subagent) -> Seq<char> {
    match a.context {
        Some(c) => known(a, dec(percent(c.used as nat, c.compact_at as nat)) + "%"@),
        None => "—"@,
    }
}

/// A subagent's line.
pub open spec fn agent_line(a: Subagent, maker: Seq<char>, desc_w: int, now: int) -> LineView {
    let ink = row_ink(a);
    blank().with(left_in(last_heard(a, now), 6), ink).with(" "@, Ink::Plain).with(mark(a).0, mark(a).1).with(
        " "@,
        Ink::Plain,
    ).with(left_in(cut(a.agent_type@, 12), 12), ink).with(" "@, Ink::Plain).with(
        left_in(cut(model_text(a.model@, maker), 12), 12),
        if a.purged {
            ink
        } else {
            Ink::Model
        },
    ).with(" "@, Ink::Plain).with(left_in(cut(a.description@, desc_w), desc_w), ink).with(" "@, Ink::Plain).with(
        right_in(known(a, usd_text(a.cost as nat)), 8),
        if a.purged {
            ink
        } else {
            Ink::Amount(a.cost as u128)
        },
    ).with(" "@, Ink::Plain).with(right_in(known(a, dec(a.tool_count as nat)), 6), ink).with(" "@, Ink::Plain).with(
        right_in(window_share(a), 5),
        ink,
    ).with(" "@, Ink::Plain).with(right_in(known(a, span_text(a.duration_ms as nat)), 7), ink)
}

fn unless_purged(a: &Subagent, text: String) -> (r: String)
    ensures
        r@ == known(*a, text@),
{
    if a.purged {
        "—".to_owned()
    } else {
        text
    }
}

fn agent_line_of(a: &Subagent, maker: &str, desc_w: usize, now: i64) -> (r: Line)
    ensures
        r@ == agent_line(*a, maker@, desc_w as int, now as int),
{
    let running = a.status == SubagentStatus::Running;
    let ink = if a.purged {
        Ink::Dim
    } else if running {
        Ink::Value
    } else {
        Ink::Gray(250)
    };
    let mut l = Line::new();
    let last = match (&a.last_active, &a.started_at) {
        (Some(t), _) => relative_age(t.as_str(), now),
        (None, Some(t)) => relative_age(t.as_str(), now),
        (None, None) => "—".to_owned(),
    };
    l.put(pad_right(last.as_str(), 6).as_str(), ink);
    l.put(" ", Ink::Plain);
    if a.purged {
        l.put("◌", Ink::Dim);
    } else if running {
        l.put("●", Ink::Low);
    } else {
        l.put("○", Ink::Dim);
    }
    l.put(" ", Ink::Plain);
    l.put(pad_right(truncate(a.agent_type.as_str(), 12).as_str(), 12).as_str(), ink);
    l.put(" ", Ink::Plain);
    let model = truncate(short_model(a.model.as_str(), maker).as_str(), 12);
    l.put(pad_right(model.as_str(), 12).as_str(), if a.purged { ink } else { Ink::Model });
    l.put(" ", Ink::Plain);
    l.put(pad_right(truncate(a.description.as_str(), desc_w).as_str(), desc_w).as_str(), ink);
    l.put(" ", Ink::Plain);
    let cost = unless_purged(a, compact_usd(a.cost as u128));
    l.put(pad_left(cost.as_str(), 8).as_str(), if a.purged { ink } else { Ink::Amount(a.cost as u128) });
    l.put(" ", Ink::Plain);
    let tools = unless_purged(a, decimal(a.tool_count as u128));
    l.put(pad_left(tools.as_str(), 6).as_str(), ink);
    l.put(" ", Ink::Plain);
    let share = match a.context {
        Some(c) => unless_purged(
            a,
            cat(decimal(percent_of(c.used as u128, c.compact_at as u128)).as_str(), "%"),
        ),
        None => "—".to_owned(),
    };
    l.put(pad_left(share.as_str(), 5).as_str(), ink);
    l.put(" ", Ink::Plain);
    let time = unless_purged(a, compact_duration(a.duration_ms as u128));
    l.put(pad_left(time.as_str(), 7).as_str(), ink);
    l
}

/// How many cells a description gets: what the other columns leave of the width,
/// and ten at the least.
pub open spec fn description_width(width: int) -> int {
    if width - 65 < 10 {
        10
    } else {
        width - 65
    }
}

/// The names of the columns.
pub open spec fn agents_head(desc_w: int) -> LineView {
    blank().with(
        left_in("LAST"@, 6) + "   "@ + left_in("TYPE"@, 12) + " "@ + left_in("MODEL"@, 12) + " "@ + left_in(
            "DESC"@,
            desc_w,
        ) + " "@ + right_in("COST"@, 8) + " "@ + right_in("TOOLS"@, 6) + " "@ + right_in("CTX"@, 5) + " "@ + right_in(
            "TIME"@,
            7,
        ),
        Ink::Header,
    )
}

/// The lines of the first `n` subagents that `order` lists.
pub open spec fn agent_lines(
    list: Seq<Subagent>,
    order: Seq<usize>,
    maker: Seq<char>,
    desc_w: int,
    now: int,
    n: int,
) -> Seq<LineView>
    decreases n,
{
    if n <= 0 {
        nothing()
    } else {
        agent_lines(list, order, maker, desc_w, now, n - 1).push(
            agent_line(list[order[n - 1] as int], maker, desc_w, now),
        )
    }
}

/// The Subagents panel. `maker` is left off the names of its models, and `now` is
/// in milliseconds since 1970.
pub fn subagents(
    data: Option<&SessionData>,
    sort: SubagentSort,
    asc: bool,
    maker: &str,
    width: usize,
    now: i64,
) -> (r: Text)
    ensures
        match data {
            None => r@ == nothing().push(blank().with("Loading…"@, Ink::Dim)),
            Some(d) => if d.subagents@.len() == 0 {
                r@ == nothing().push(blank().with("No subagents."@, Ink::Dim))
            } else {
                let list = d.subagents@;
                let desc_w = description_width(width as int);
                r@ == nothing().push(agents_head(desc_w)) + agent_lines(
                    list,
                    sorted(agent_keys(list, sort), asc),
                    maker@,
                    desc_w,
                    now as int,
                    list.len() as int,
                )
            },
        },
{
    let d = match data {
        None => {
            return note("Loading…", Ink::Dim);
        },
        Some(d) => d,
    };
    if d.subagents.len() == 0 {
        return note("No subagents.", Ink::Dim);
    }
    let list = &d.subagents;
    let order = order_of(list, sort, asc);
    let desc_w: usize = if width < 75 {
        10
    } else {
        width - 65
    };
    let mut h = cat(pad_right("LAST", 6).as_str(), "   ");
    h.append(pad_right("TYPE", 12).as_str());
    h.append(" ");
    h.append(pad_right("MODEL", 12).as_str());
    h.append(" ");
    h.append(pad_right("DESC", desc_w).as_str());
    h.append(" ");
    h.append(pad_left("COST", 8).as_str());
    h.append(" ");
    h.append(pad_left("TOOLS", 6).as_str());
    h.append(" ");
    h.append(pad_left("CTX", 5).as_str());
    h.append(" ");
    h.append(pad_left("TIME", 7).as_str());
    let mut t = Text::new();
    t.push(line_of(h.as_str(), Ink::Header));
    let ghost top = t@;
    let mut i: usize = 0;
    assert(top + agent_lines(list@, order@, maker@, desc_w as int, now as int, 0) =~= top);
    while i < order.len()
        invariant
            i <= order@.len(),
            lists_each(order@, list@.len() as int),
            t@ == top + agent_lines(list@, order@, maker@, desc_w as int, now as int, i as int),
        decreases order@.len() - i,
    {
        t.push(agent_line_of(&list[order[i]], maker, desc_w, now));
        assert(t@ =~= top + agent_lines(list@, order@, maker@, desc_w as int, now as int, i + 1));
        i += 1;
    }
    t
}

/// A subagent's line has its own figures in their columns. Of one whose transcript was
/// purged the figures are not known, and none is made up.
pub proof fn a_subagent_has_its_own_figures(a: Subagent, maker: Seq<char>, desc_w: int, now: int)
    ensures
        ({
            let spans = agent_line(a, maker, desc_w, now).spans;
            &&& spans[4].text == left_in(cut(a.agent_type@, 12), 12)
            &&& spans[6].text == left_in(cut(model_text(a.model@, maker), 12), 12)
            &&& spans[8].text == left_in(cut(a.description@, desc_w), desc_w)
            &&& a.purged ==> spans[2].text == "◌"@ && spans[10].text == right_in("—"@, 8) && spans[12].text == right_in(
                "—"@,
                6,
            ) && spans[14].text == right_in("—"@, 5) && spans[16].text == right_in("—"@, 7)
            &&& !a.purged ==> {
                &&& a.status == SubagentStatus::Running <==> spans[2].text == "●"@
                &&& spans[10].text == right_in(usd_text(a.cost as nat), 8)
                &&& spans[10].ink == Ink::Amount(a.cost as u128)
                &&& spans[12].text == right_in(dec(a.tool_count as nat), 6)
                &&& a.context is None ==> spans[14].text == right_in("—"@, 5)
                &&& a.context matches Some(c) ==> spans[14].text == right_in(
                    dec(percent(c.used as nat, c.compact_at as nat)) + "%"@,
                    5,
                )
                &&& spans[16].text == right_in(span_text(a.duration_ms as nat), 7)
            }
            &&& a.last_active matches Some(t) ==> spans[0].text == left_in(age_text(t@, now), 6)
            &&& a.last_active is None && a.started_at is Some ==> spans[0].text == left_in(
                age_text(a.started_at->0@, now),
                6,
            )
        }),
{
    reveal_strlit("●");
    reveal_strlit("○");
    assert("●"@[0] == '●');
    assert("○"@[0] == '○');
}

proof fn rows_in_order(
    list: Seq<Subagent>,
    order: Seq<usize>,
    maker: Seq<char>,
    desc_w: int,
    now: int,
    n: int,
    i: int,
)
    requires
        0 <= i < n <= order.len(),
    ensures
        agent_lines(list, order, maker, desc_w, now, n).len() == n,
        agent_lines(list, order, maker, desc_w, now, n)[i] == agent_line(list[order[i] as int], maker, desc_w, now),
    decreases n,
{
    assert(agent_lines(list, order, maker, desc_w, now, 0).len() == 0);
    if n > 1 {
        rows_in_order(list, order, maker, desc_w, now, n - 1, if i < n - 1 {
            i
        } else {
            0
        });
    }
}

/// The lines are those of the subagents as they are sorted, one each.
pub proof fn every_subagent_has_a_line(
    list: Seq<Subagent>,
    sort: SubagentSort,
    asc: bool,
    maker: Seq<char>,
    desc_w: int,
    now: int,
    i: int,
)
    requires
        list.len() <= usize::MAX,
        0 <= i < list.len(),
    ensures
        ({
            let lines = agent_lines(list, sorted(agent_keys(list, sort), asc), maker, desc_w, now, list.len() as int);
            lines.len() == list.len() && lines[i] == agent_line(agents_sorted(list, sort, asc)[i], maker, desc_w, now)
        }),
{
    let order = sorted(agent_keys(list, sort), asc);
    every_row_has_its_place(agent_keys(list, sort), asc);
    rows_in_order(list, order, maker, desc_w, now, list.len() as int, i);
}

/// Sorted by a column, what stands in that column goes up from line to line, or down
/// where that was asked for.
pub proof fn a_sorted_column_goes_one_way(list: Seq<Subagent>, sort: SubagentSort, asc: bool, p: int, q: int)
    requires
        list.len() <= usize::MAX,
        0 <= p < q < list.len(),
    ensures
        ({
            let out = agents_sorted(list, sort, asc);
            let (a, b) = if asc {
                (out[p], out[q])
            } else {
                (out[q], out[p])
            };
            &&& sort == SubagentSort::Cost ==> a.cost <= b.cost
            &&& sort == SubagentSort::Tools ==> a.tool_count <= b.tool_count
            &&& sort == SubagentSort::Duration ==> a.duration_ms <= b.duration_ms
            &&& sort == SubagentSort::Type ==> !crate::order::text_before(b.agent_type@, a.agent_type@)
            &&& sort == SubagentSort::Model ==> !crate::order::text_before(b.model@, a.model@)
            &&& sort == SubagentSort::Description ==> !crate::order::text_before(b.description@, a.description@)
            &&& sort == SubagentSort::Last && a.last_active is Some && b.last_active is Some
                ==> !crate::order::text_before(b.last_active->0@, a.last_active->0@)
            &&& sort == SubagentSort::Last && b.last_active is None ==> a.last_active is None || a.last_active->0@.len()
                == 0
            &&& sort == SubagentSort::Context && b.context is None ==> a.context is None
        }),
{
    let keys = agent_keys(list, sort);
    let r = sorted(keys, asc);
    every_row_has_its_place(keys, asc);
    let out = agents_sorted(list, sort, asc);
    let (i, j) = (r[p] as int, r[q] as int);
    assert(goes_before(keys, asc, i, j));
    let (a, b) = if asc {
        (out[p], out[q])
    } else {
        (out[q], out[p])
    };
    assert(out[p] == list[i] && out[q] == list[j]);
    let (x, y) = (agent_key(a, sort), agent_key(b, sort));
    assert(keys[i] == agent_key(list[i], sort) && keys[j] == agent_key(list[j], sort));
    assert(lex_lt(x, y) || x == y);
    one_column_decides(a, b, sort);
}

proof fn one_column_decides(a: Subagent, b: Subagent, sort: SubagentSort)
    requires
        lex_lt(agent_key(a, sort), agent_key(b, sort)) || agent_key(a, sort) == agent_key(b, sort),
    ensures
        sort == SubagentSort::Cost ==> a.cost <= b.cost,
        sort == SubagentSort::Tools ==> a.tool_count <= b.tool_count,
        sort == SubagentSort::Duration ==> a.duration_ms <= b.duration_ms,
        sort == SubagentSort::Type ==> !crate::order::text_before(b.agent_type@, a.agent_type@),
        sort == SubagentSort::Model ==> !crate::order::text_before(b.model@, a.model@),
        sort == SubagentSort::Description ==> !crate::order::text_before(b.description@, a.description@),
        sort == SubagentSort::Last && a.last_active is Some && b.last_active is Some ==> !crate::order::text_before(
            b.last_active->0@,
            a.last_active->0@,
        ),
        sort == SubagentSort::Last && b.last_active is None ==> a.last_active is None || a.last_active->0@.len() == 0,
        sort == SubagentSort::Context && b.context is None ==> a.context is None,
{
    let (x, y) = (agent_key(a, sort), agent_key(b, sort));
    match sort {
        SubagentSort::Cost => {
            assert(x[0] == a.cost && y[0] == b.cost);
        },
        SubagentSort::Tools => {
            assert(x[0] == a.tool_count && y[0] == b.tool_count);
        },
        SubagentSort::Duration => {
            assert(x[0] == a.duration_ms && y[0] == b.duration_ms);
        },
        SubagentSort::Type => {
            texts_decide(a.agent_type@, b.agent_type@, letters(a.agent_id@), letters(b.agent_id@));
        },
        SubagentSort::Model => {
            texts_decide(a.model@, b.model@, letters(a.agent_id@), letters(b.agent_id@));
        },
        SubagentSort::Description => {
            texts_decide(a.description@, b.description@, letters(a.agent_id@), letters(b.agent_id@));
        },
        SubagentSort::Last => {
            let s = match a.last_active {
                Some(t) => t@,
                None => Seq::empty(),
            };
            let t = match b.last_active {
                Some(t) => t@,
                None => Seq::empty(),
            };
            texts_decide(s, t, letters(a.agent_id@), letters(b.agent_id@));
            if t.len() == 0 && s.len() > 0 {
                assert(crate::order::text_before(t, s));
            }
        },
        SubagentSort::Context => {
            if b.context is None {
                assert(y[0] == 0);
                if a.context is Some {
                    assert(x[0] == 1);
                }
            }
        },
    }
}

proof fn texts_decide(s: Seq<char>, t: Seq<char>, x: Seq<u64>, y: Seq<u64>)
    requires
        lex_lt(closed_letters(s) + x, closed_letters(t) + y) || closed_letters(s) + x == closed_letters(t) + y,
    ensures
        !crate::order::text_before(t, s),
{
    if lex_lt(closed_letters(s) + x, closed_letters(t) + y) {
        crate::order::closed_off_texts_order_as_texts(s, t, x, y);
    } else {
        what_is_closed_off_ends_alike(s, t, x, y);
        let (a, b) = (closed_letters(s) + x, closed_letters(t) + y);
        assert forall|i: int| 0 <= i < s.len() implies s[i] == t[i] by {
            closing_tells(s, i);
            closing_tells(t, i);
            assert(a[i] == closed_letters(s)[i]);
            assert(b[i] == closed_letters(t)[i]);
            letter_fits(s[i]);
            letter_fits(t[i]);
            crate::order::one_letter(s[i], t[i]);
        }
        assert(s =~= t);
    }
    if crate::order::text_before(t, s) {
        if s != t {
            crate::order::text_transitive(t, s, t);
        }
        text_irreflexive(t);
    }
}

proof fn a_larger_fraction_is_no_less(u: int, c: int, v: int, d: int, k: int)
    requires
        c > 0,
        d > 0,
        u >= 0,
        v >= 0,
        k >= 0,
        u * d <= v * c,
    ensures
        (u * k) / c <= (v * k) / d,
{
    let (x, y) = ((u * k) / c, (v * k) / d);
    vstd::arithmetic::div_mod::lemma_fundamental_div_mod(u * k, c);
    vstd::arithmetic::div_mod::lemma_fundamental_div_mod(v * k, d);
    let (a, b) = ((u * k) % c, (v * k) % d);
    if x > y {
        assert(false) by (nonlinear_arith)
            requires
                x >= y + 1,
                c > 0,
                d > 0,
                k >= 0,
                u * k == c * x + a,
                v * k == d * y + b,
                0 <= a,
                b < d,
                u * d <= v * c,
        {
            assert((u * k) * d <= (v * k) * c);
            assert((c * x + a) * d <= (d * y + b) * c);
            assert(c * x * d >= c * (y + 1) * d);
            assert(b * c < d * c);
        }
    }
}

/// A window that is no fuller than another, as a share of where it is compacted, is
/// not ordered behind it.
pub proof fn a_fuller_window_is_not_first(c: ContextUsage, d: ContextUsage)
    requires
        c.compact_at > 0,
        d.compact_at > 0,
        c.used * d.compact_at <= d.used * c.compact_at,
    ensures
        !lex_lt(fullness(d), fullness(c)),
{
    let (u, a, v, b) = (c.used as int, c.compact_at as int, d.used as int, d.compact_at as int);
    a_larger_fraction_is_no_less(u, a, v, b, 1);
    assert(u * 1 == u && v * 1 == v) by (nonlinear_arith);
    let (q, r, p, s) = (u / a, u % a, v / b, v % b);
    vstd::arithmetic::div_mod::lemma_fundamental_div_mod(u, a);
    vstd::arithmetic::div_mod::lemma_fundamental_div_mod(v, b);
    let (x, y) = (fullness(c), fullness(d));
    assert(x[0] == q && y[0] == p);
    if q == p {
        assert(r * b <= s * a) by (nonlinear_arith)
            requires
                u == a * q + r,
                v == b * p + s,
                q == p,
                u * b <= v * a,
        ;
        a_larger_fraction_is_no_less(r, a, s, b, 0x1_0000_0000_0000_0000);
        below_one(r, a);
        below_one(s, b);
        assert(x[1] <= y[1]);
        assert(x.skip(1)[0] == x[1] && y.skip(1)[0] == y[1]);
        assert(x.skip(1).skip(1).len() == 0 && y.skip(1).skip(1).len() == 0);
        reveal_with_fuel(lex_lt, 3);
    }
}

proof fn below_one(r: int, a: int)
    requires
        0 <= r < a,
    ensures
        0 <= r * 0x1_0000_0000_0000_0000 / a < 0x1_0000_0000_0000_0000,
{
    let k = 0x1_0000_0000_0000_0000int;
    vstd::arithmetic::div_mod::lemma_fundamental_div_mod(r * k, a);
    let (q, m) = (r * k / a, (r * k) % a);
    assert(0 <= q < k) by (nonlinear_arith)
        requires
            r * k == a * q + m,
            0 <= m < a,
            0 <= r < a,
            k > 0,
    ;
}

/// A subagent that runs stands out from one that is done, and one that was purged is
/// dimmed.
pub proof fn a_running_subagent_stands_out(a: Subagent)
    ensures
        a.purged ==> row_ink(a) == Ink::Dim && mark(a) == ("◌"@, Ink::Dim),
        !a.purged && a.status == SubagentStatus::Running ==> row_ink(a) == Ink::Value && mark(a) == ("●"@, Ink::Low),
        !a.purged && a.status != SubagentStatus::Running ==> row_ink(a) == Ink::Gray(250) && mark(a) == ("○"@, Ink::Dim),
{
}

/// What was asked of a subagent gets what the other columns leave of the panel.
pub proof fn a_description_gets_what_is_left(width: int)
    ensures
        width >= 75 ==> description_width(width) + 65 == width,
        width < 75 ==> description_width(width) == 10,
{
}

} // verus!
