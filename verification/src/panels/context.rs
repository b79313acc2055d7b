//! The Context panel: what the context window is filled with.
//!
//! The panel's job is to be believed, so it never pretends that the parts add up.
//! What was measured and what was estimated is told apart, and whatever the two
//! together fail to reach gets a share of its own.

use vstd::prelude::*;

use crate::data::{ContextBreakdown, CtxPoint, SessionData};
use crate::figures::{
    compact_duration, compact_tokens, millis_of, ms_of, percent, percent_of, nearest, since, span_text, to_nearest, tokens_text, MOST,
};
use crate::model::{ContextUsage, Session};
use crate::order::{keys_of, lists_each, order_by, sorted, wide, wide_of};
use crate::panels::log::{wrap, wrapped};
use crate::styled::{blank, line_of, note, nothing, Ink, Line, LineView, Span, SpanView, Text};
use crate::text::{between, cat, count, dec, decimal, left_in, pad_left, pad_right, right_in, same, words};

verus! {

/// One category of what the window holds.
pub struct Slice {
    pub name: &'static str,
    pub tokens: u64,
    pub ink: Ink,
    /// What it is drawn with: solid for everything the window holds, shaded for
    /// the free remainder.
    pub fill: char,
}

/// What a [`Slice`] says.
#[verifier::ext_equal]
pub struct SliceView {
    pub name: Seq<char>,
    pub tokens: u64,
    pub ink: Ink,
    pub fill: char,
}

impl View for Slice {
    type V = SliceView;

    open spec fn view(&self) -> SliceView {
        SliceView { name: self.name@, tokens: self.tokens, ink: self.ink, fill: self.fill }
    }
}

/// What the slices say.
pub open spec fn says(v: Seq<Slice>) -> Seq<SliceView> {
    v.map_values(|s: Slice| s@)
}

/// A category of what the window holds.
pub open spec fn held(name: Seq<char>, tokens: u64, ink: Ink) -> SliceView {
    SliceView { name, tokens, ink, fill: '█' }
}

/// The measured and estimated categories.
pub open spec fn categories(b: ContextBreakdown) -> Seq<SliceView> {
    seq![
        held("Startup"@, b.startup, Ink::PanelTitle),
        held("Tool output"@, b.tool_output, Ink::Accent),
        held("Tool input"@, b.tool_input, Ink::Chart(0)),
        held("Attachments"@, b.attachments, Ink::Name),
        held("Your messages"@, b.user_text, Ink::Low),
        held("Assistant text"@, b.assistant_text, Ink::Chart(1)),
    ]
}

/// Those of the first `n` slices that hold anything.
pub open spec fn kept(all: Seq<SliceView>, n: int) -> Seq<SliceView>
    decreases n,
{
    if n <= 0 {
        Seq::empty()
    } else if all[n - 1].tokens > 0 {
        kept(all, n - 1).push(all[n - 1])
    } else {
        kept(all, n - 1)
    }
}

/// What the slices are ordered by.
pub open spec fn size_keys(s: Seq<SliceView>) -> Seq<Seq<u64>> {
    s.map_values(|x: SliceView| seq![x.tokens])
}

/// The slices `order` lists.
pub open spec fn picked(s: Seq<SliceView>, order: Seq<usize>) -> Seq<SliceView> {
    order.map_values(|i: usize| s[i as int])
}

/// The largest category first.
pub open spec fn by_size(b: ContextBreakdown) -> Seq<SliceView> {
    let all = kept(categories(b), 6);
    picked(all, sorted(size_keys(all), false))
}

/// How much of the window is free.
pub open spec fn free_tokens(s: Session, b: ContextBreakdown) -> int {
    match s.context {
        Some(c) => if c.max > b.total {
            c.max - b.total
        } else {
            0
        },
        None => 0,
    }
}

/// What the window is filled with: the categories, the largest first, then what
/// they leave unaccounted for, then what is free.
pub open spec fn slices_of(s: Session, b: ContextBreakdown) -> Seq<SliceView> {
    let t = by_size(b);
    let t = if b.gap() > 0 {
        t.push(held("Unaccounted"@, b.gap() as u64, Ink::Dim))
    } else {
        t
    };
    if free_tokens(s, b) > 0 {
        t.push(SliceView { name: "Free"@, tokens: free_tokens(s, b) as u64, ink: Ink::Dimmer, fill: '░' })
    } else {
        t
    }
}

fn put_slice(v: &mut Vec<Slice>, name: &'static str, tokens: u64, ink: Ink, fill: char)
    ensures
        says(final(v)@) == says(old(v)@).push(SliceView { name: name@, tokens, ink, fill }),
        final(v)@.len() == old(v)@.len() + 1,
{
    v.push(Slice { name, tokens, ink, fill });
    assert(says(v@) =~= says(old(v)@).push(SliceView { name: name@, tokens, ink, fill }));
}

fn put_held(v: &mut Vec<Slice>, name: &'static str, tokens: u64, ink: Ink)
    ensures
        says(final(v)@) == (if tokens > 0 {
            says(old(v)@).push(held(name@, tokens, ink))
        } else {
            says(old(v)@)
        }),
        final(v)@.len() <= old(v)@.len() + 1,
{
    if tokens > 0 {
        put_slice(v, name, tokens, ink, '█');
    }
}

fn held_categories(b: &ContextBreakdown) -> (r: Vec<Slice>)
    ensures
        says(r@) == kept(categories(*b), 6),
        r@.len() <= 6,
{
    let mut v: Vec<Slice> = Vec::new();
    let ghost all = categories(*b);
    assert(says(v@) =~= kept(all, 0));
    put_held(&mut v, "Startup", b.startup, Ink::PanelTitle);
    assert(says(v@) == kept(all, 1)) by {
        assert(all[0] == held("Startup"@, b.startup, Ink::PanelTitle));
    }
    put_held(&mut v, "Tool output", b.tool_output, Ink::Accent);
    assert(says(v@) == kept(all, 2)) by {
        assert(all[1] == held("Tool output"@, b.tool_output, Ink::Accent));
    }
    put_held(&mut v, "Tool input", b.tool_input, Ink::Chart(0));
    assert(says(v@) == kept(all, 3)) by {
        assert(all[2] == held("Tool input"@, b.tool_input, Ink::Chart(0)));
    }
    put_held(&mut v, "Attachments", b.attachments, Ink::Name);
    assert(says(v@) == kept(all, 4)) by {
        assert(all[3] == held("Attachments"@, b.attachments, Ink::Name));
    }
    put_held(&mut v, "Your messages", b.user_text, Ink::Low);
    assert(says(v@) == kept(all, 5)) by {
        assert(all[4] == held("Your messages"@, b.user_text, Ink::Low));
    }
    put_held(&mut v, "Assistant text", b.assistant_text, Ink::Chart(1));
    assert(says(v@) == kept(all, 6)) by {
        assert(all[5] == held("Assistant text"@, b.assistant_text, Ink::Chart(1)));
    }
    v
}

fn slices(s: &Session, b: &ContextBreakdown) -> (r: Vec<Slice>)
    ensures
        says(r@) == slices_of(*s, *b),
        r@.len() <= 8,
{
    let all = held_categories(b);
    let ghost sv = says(all@);
    let mut keys: Vec<Vec<u64>> = Vec::new();
    let mut i: usize = 0;
    while i < all.len()
        invariant
            i <= all@.len(),
            keys@.len() == i,
            forall|j: int| 0 <= j < i ==> (#[trigger] keys@[j])@ == seq![all@[j].tokens],
        decreases all@.len() - i,
    {
        let mut key: Vec<u64> = Vec::new();
        key.push(all[i].tokens);
        assert(key@ =~= seq![all@[i as int].tokens]);
        keys.push(key);
        i += 1;
    }
    assert(keys_of(keys@) =~= size_keys(sv));
    let order = order_by(&keys, false);
    let mut v: Vec<Slice> = Vec::new();
    let mut k: usize = 0;
    assert(says(v@) =~= picked(sv, order@.take(0)));
    while k < order.len()
        invariant
            k <= order@.len(),
            all@.len() <= 6,
            sv == says(all@),
            lists_each(order@, all@.len() as int),
            v@.len() == k,
            says(v@) == picked(sv, order@.take(k as int)),
        decreases order@.len() - k,
    {
        let one = &all[order[k]];
        assert(one@ == sv[order@[k as int] as int]);
        put_slice(&mut v, one.name, one.tokens, one.ink, one.fill);
        assert(says(v@) =~= picked(sv, order@.take(k + 1)));
        k += 1;
    }
    assert(order@.take(k as int) =~= order@);
    let gap: i128 = b.unaccounted();
    if gap > 0 {
        put_slice(&mut v, "Unaccounted", gap as u64, Ink::Dim, '█');
    }
    let free: u64 = match s.context {
        Some(c) => c.max.saturating_sub(b.total),
        None => 0,
    };
    if free > 0 {
        put_slice(&mut v, "Free", free, Ink::Dimmer, '░');
    }
    v
}

/// How many tokens the first `n` slices stand for.
pub open spec fn tokens_in(s: Seq<SliceView>, n: int) -> nat
    decreases n,
{
    if n <= 0 {
        0
    } else {
        tokens_in(s, n - 1) + s[n - 1].tokens as nat
    }
}

proof fn kept_tokens(all: Seq<SliceView>, n: int)
    requires
        0 <= n <= all.len(),
    ensures
        tokens_in(kept(all, n), kept(all, n).len() as int) == tokens_in(all, n),
        kept(all, n).len() <= n,
    decreases n,
{
    if n > 0 {
        kept_tokens(all, n - 1);
        let before = kept(all, n - 1);
        if all[n - 1].tokens > 0 {
            same_tokens(before, before.push(all[n - 1]), before.len() as int);
        }
    }
}

proof fn same_tokens(s: Seq<SliceView>, t: Seq<SliceView>, n: int)
    requires
        0 <= n <= s.len(),
        n <= t.len(),
        forall|i: int| 0 <= i < n ==> s[i] == t[i],
    ensures
        tokens_in(s, n) == tokens_in(t, n),
    decreases n,
{
    if n > 0 {
        same_tokens(s, t, n - 1);
    }
}

proof fn tokens_without(s: Seq<SliceView>, at: int, n: int)
    requires
        0 <= at < n <= s.len(),
    ensures
        tokens_in(s, n) == tokens_in(s.remove(at), n - 1) + s[at].tokens,
    decreases n,
{
    if n - 1 == at {
        same_tokens(s, s.remove(at), at);
    } else {
        tokens_without(s, at, n - 1);
        assert(s.remove(at)[n - 2] == s[n - 1]);
    }
}

proof fn listed_tokens(s: Seq<SliceView>, order: Seq<usize>)
    requires
        lists_each(order, s.len() as int),
    ensures
        tokens_in(picked(s, order), s.len() as int) == tokens_in(s, s.len() as int),
    decreases s.len(),
{
    let n = s.len() as int;
    if n > 0 {
        crate::order::every_row_listed(order, n, n - 1);
        let at = choose|q: int| 0 <= q < n && #[trigger] order[q] == n - 1;
        let rest = order.remove(at);
        assert forall|p: int| 0 <= p < n - 1 implies (#[trigger] rest[p]) < n - 1 by {
            let a = if p < at {
                p
            } else {
                p + 1
            };
            assert(rest[p] == order[a]);
            if a < at {
                assert(order[a] != order[at]);
            } else {
                assert(order[at] != order[a]);
            }
        }
        assert forall|p: int, q: int| 0 <= p < q < n - 1 implies (#[trigger] rest[p]) != (#[trigger] rest[q]) by {
            let a = if p < at {
                p
            } else {
                p + 1
            };
            let b = if q < at {
                q
            } else {
                q + 1
            };
            assert(rest[p] == order[a] && rest[q] == order[b]);
        }
        listed_tokens(s.drop_last(), rest);
        tokens_without(picked(s, order), at, n);
        assert(picked(s, order).remove(at) =~= picked(s.drop_last(), rest));
        same_tokens(s.drop_last(), s, n - 1);
    }
}

/// What is shown of the window comes to the window: the categories, what they leave
/// unaccounted for and what is free are all of it, and more only where the
/// categories were estimated to be.
pub proof fn the_window_is_accounted_for(s: Session, b: ContextBreakdown)
    ensures
        ({
            let all = slices_of(s, b);
            let guessed = if b.gap() < 0 {
                -b.gap()
            } else {
                0
            };
            tokens_in(all, all.len() as int) == b.total + guessed + free_tokens(s, b)
        }),
{
    let cats = categories(b);
    reveal_with_fuel(tokens_in, 7);
    assert(tokens_in(cats, 6) == b.total - b.gap());
    kept_tokens(cats, 6);
    let held_ones = kept(cats, 6);
    let order = sorted(size_keys(held_ones), false);
    crate::order::every_row_has_its_place(size_keys(held_ones), false);
    listed_tokens(held_ones, order);
    let t = by_size(b);
    assert(tokens_in(t, t.len() as int) == b.total - b.gap());
    let u = if b.gap() > 0 {
        t.push(held("Unaccounted"@, b.gap() as u64, Ink::Dim))
    } else {
        t
    };
    if b.gap() > 0 {
        same_tokens(t, u, t.len() as int);
        assert(b.gap() <= b.total);
    }
    if free_tokens(s, b) > 0 {
        same_tokens(u, slices_of(s, b), u.len() as int);
    }
}

/// How many of those are held.
pub open spec fn held_in(s: Seq<SliceView>, n: int) -> nat
    decreases n,
{
    if n <= 0 {
        0
    } else if s[n - 1].name == "Free"@ {
        held_in(s, n - 1)
    } else {
        held_in(s, n - 1) + s[n - 1].tokens as nat
    }
}

proof fn tokens_grow(s: Seq<SliceView>, m: int, n: int)
    requires
        0 <= m <= n <= s.len(),
    ensures
        tokens_in(s, m) <= tokens_in(s, n),
    decreases n,
{
    if m < n {
        tokens_grow(s, m, n - 1);
    }
}

proof fn few_can_be_shown(s: Seq<SliceView>, n: int)
    requires
        0 <= n <= s.len(),
        n <= 8,
    ensures
        tokens_in(s, n) <= n * u64::MAX,
    decreases n,
{
    if n > 0 {
        few_can_be_shown(s, n - 1);
    }
}

fn sums(s: &Vec<Slice>) -> (r: (u128, u128))
    requires
        tokens_in(says(s@), s@.len() as int) <= MOST,
    ensures
        r.0 == tokens_in(says(s@), s@.len() as int),
        r.1 == held_in(says(s@), s@.len() as int),
        r.0 <= MOST,
        r.1 <= r.0,
{
    let ghost sv = says(s@);
    let mut all: u128 = 0;
    let mut kept: u128 = 0;
    let mut i: usize = 0;
    while i < s.len()
        invariant
            i <= s@.len(),
            sv == says(s@),
            sv.len() == s@.len(),
            tokens_in(sv, s@.len() as int) <= MOST,
            all == tokens_in(sv, i as int),
            kept == held_in(sv, i as int),
            kept <= all <= MOST,
        decreases s@.len() - i,
    {
        assert(sv[i as int] == s@[i as int]@);
        let n: u128 = s[i].tokens as u128;
        proof {
            tokens_grow(sv, i + 1, s@.len() as int);
        }
        all = all + n;
        if !same(s[i].name, "Free") {
            kept = kept + n;
        }
        i += 1;
    }
    (all, kept)
}

/// The cell of the bar the auto-compact threshold falls on, while it is ahead.
pub open spec fn marked_cell(s: Session, slices: Seq<SliceView>, superseded: bool, width: int) -> Option<int> {
    let scale = tokens_in(slices, slices.len() as int);
    match s.context {
        None => None,
        Some(c) => if scale == 0 || superseded {
            None
        } else {
            let cell = nearest(c.compact_at as nat, scale, width as nat);
            let free = nearest(held_in(slices, slices.len() as int), scale, width as nat);
            if free < cell < width {
                Some(cell as int)
            } else {
                None
            }
        },
    }
}

/// Which cell of the bar the auto-compact threshold falls on, when it is still
/// ahead.
///
/// Only inside the free tail: elsewhere the mark would overwrite something held.
/// And not once a compaction has replaced the window: nobody has measured the one
/// that took its place.
pub fn compaction_cell(session: &Session, slices: &Vec<Slice>, superseded: bool, width: u16) -> (r: Option<usize>)
    requires
        tokens_in(says(slices@), slices@.len() as int) <= MOST,
    ensures
        match (r, marked_cell(*session, says(slices@), superseded, width as int)) {
            (Some(a), Some(b)) => a == b,
            (None, None) => true,
            _ => false,
        },
{
    let (scale, kept) = sums(slices);
    assert(says(slices@).len() == slices@.len());
    match session.context {
        None => None,
        Some(c) => {
            if scale == 0 || superseded {
                return None;
            }
            let cell: u128 = to_nearest(c.compact_at as u128, scale, width as u128);
            let free: u128 = to_nearest(kept, scale, width as u128);
            if cell > free && cell < width as u128 {
                Some(cell as usize)
            } else {
                None
            }
        },
    }
}

/// The sum of the first `n` weights.
pub open spec fn weight_sum(w: Seq<u64>, n: int) -> nat
    decreases n,
{
    if n <= 0 {
        0
    } else {
        weight_sum(w, n - 1) + w[n - 1] as nat
    }
}

/// What the shares are of: the sum of the weights, and one where that is nothing.
pub open spec fn scale_of(w: Seq<u64>) -> nat {
    let sum = weight_sum(w, w.len() as int);
    if sum == 0 {
        1
    } else {
        sum
    }
}

/// The whole cells a weight is worth.
pub open spec fn whole_cells(w: u64, cells: nat, scale: nat) -> nat {
    (w as nat * cells) / scale
}

/// What a weight is worth beyond its whole cells.
pub open spec fn beyond(w: u64, cells: nat, scale: nat) -> nat {
    (w as nat * cells) % scale
}

/// The whole cells of the first `n` weights.
pub open spec fn whole_sum(w: Seq<u64>, cells: nat, scale: nat, n: int) -> nat
    decreases n,
{
    if n <= 0 {
        0
    } else {
        whole_sum(w, cells, scale, n - 1) + whole_cells(w[n - 1], cells, scale)
    }
}

/// What the first `n` weights are worth beyond their whole cells.
pub open spec fn beyond_sum(w: Seq<u64>, cells: nat, scale: nat, n: int) -> nat
    decreases n,
{
    if n <= 0 {
        0
    } else {
        beyond_sum(w, cells, scale, n - 1) + beyond(w[n - 1], cells, scale)
    }
}

/// What the weights are ordered by: the largest remainder first.
pub open spec fn remainder_keys(w: Seq<u64>, cells: nat) -> Seq<Seq<u64>> {
    w.map_values(|x: u64| wide(beyond(x, cells, scale_of(w)) as u128))
}

/// The cells the whole shares leave over.
pub open spec fn spare_cells(w: Seq<u64>, cells: nat) -> int {
    cells - whole_sum(w, cells, scale_of(w), w.len() as int)
}

/// Whether weight `i` is one of the first `spare` that `order` lists.
pub open spec fn gets_spare(order: Seq<usize>, spare: int, i: int) -> bool {
    exists|p: int| 0 <= p < spare && p < order.len() && #[trigger] order[p] == i
}

/// The weights to go by: all alike where none weighs anything.
pub open spec fn evened(w: Seq<u64>) -> Seq<u64> {
    if weight_sum(w, w.len() as int) == 0 {
        Seq::new(w.len(), |i: int| 1u64)
    } else {
        w
    }
}

/// How many cells weight `i` gets of `cells`.
pub open spec fn share_of(w: Seq<u64>, cells: nat, i: int) -> nat {
    part_of(evened(w), cells, i)
}

/// The whole cells weight `i` is worth, and one of those left over where its
/// remainder is among the largest.
pub open spec fn part_of(w: Seq<u64>, cells: nat, i: int) -> nat {
    whole_cells(w[i], cells, scale_of(w)) + if gets_spare(
        sorted(remainder_keys(w, cells), false),
        spare_cells(w, cells),
        i,
    ) {
        1nat
    } else {
        0nat
    }
}

proof fn sums_add_up(w: Seq<u64>, cells: nat, scale: nat, n: int)
    requires
        scale > 0,
        0 <= n <= w.len(),
    ensures
        whole_sum(w, cells, scale, n) * scale + beyond_sum(w, cells, scale, n) == weight_sum(w, n) * cells,
        beyond_sum(w, cells, scale, n) <= n * (scale - 1),
    decreases n,
{
    if n > 0 {
        sums_add_up(w, cells, scale, n - 1);
        let x = w[n - 1] as nat;
        let (a, b) = (whole_sum(w, cells, scale, n - 1), whole_cells(w[n - 1], cells, scale));
        vstd::arithmetic::div_mod::lemma_fundamental_div_mod((x * cells) as int, scale as int);
        vstd::arithmetic::div_mod::lemma_mod_bound((x * cells) as int, scale as int);
        assert((a + b) * scale == a * scale + scale * b) by (nonlinear_arith);
        assert((weight_sum(w, n - 1) + x) * cells == weight_sum(w, n - 1) * cells + x * cells) by (nonlinear_arith);
        assert(n * (scale - 1) == (n - 1) * (scale - 1) + (scale - 1)) by (nonlinear_arith);
    } else {
        assert(0 * scale == 0) by (nonlinear_arith);
        assert(0 * cells == 0) by (nonlinear_arith);
    }
}

proof fn whole_cells_fit(w: Seq<u64>, cells: nat)
    ensures
        0 <= spare_cells(w, cells),
        weight_sum(w, w.len() as int) > 0 ==> spare_cells(w, cells) < w.len(),
{
    let n = w.len() as int;
    let scale = scale_of(w);
    let sum = weight_sum(w, n);
    let whole = whole_sum(w, cells, scale, n);
    let rest = beyond_sum(w, cells, scale, n);
    sums_add_up(w, cells, scale, n);
    assert(whole <= cells) by (nonlinear_arith)
        requires
            whole * scale + rest == sum * cells,
            sum <= scale,
            scale > 0,
            rest >= 0,
            whole >= 0,
            cells >= 0,
    ;
    if sum > 0 {
        assert(cells - whole < n) by (nonlinear_arith)
            requires
                whole * scale + rest == scale * cells,
                rest <= n * (scale - 1),
                scale > 0,
                n > 0,
        ;
    }
}

/// The sum of the first `n` shares.
pub open spec fn total(s: Seq<usize>, n: int) -> nat
    decreases n,
{
    if n <= 0 {
        0
    } else {
        total(s, n - 1) + s[n - 1] as nat
    }
}

proof fn one_more(s: Seq<usize>, i: int, n: int)
    requires
        0 <= i < n <= s.len(),
        s[i] < usize::MAX,
    ensures
        total(s.update(i, (s[i] + 1) as usize), n) == total(s, n) + 1,
    decreases n,
{
    let t = s.update(i, (s[i] + 1) as usize);
    if i < n - 1 {
        one_more(s, i, n - 1);
    } else {
        same_total(s, t, n - 1);
    }
}

proof fn same_total(s: Seq<usize>, t: Seq<usize>, n: int)
    requires
        n <= s.len(),
        n <= t.len(),
        forall|i: int| 0 <= i < n ==> s[i] == t[i],
    ensures
        total(s, n) == total(t, n),
    decreases n,
{
    if n > 0 {
        same_total(s, t, n - 1);
    }
}

proof fn whole_is_at_most(w: Seq<u64>, cells: nat, scale: nat, i: int, n: int)
    requires
        0 <= i < n <= w.len(),
    ensures
        whole_cells(w[i], cells, scale) <= whole_sum(w, cells, scale, n),
    decreases n,
{
    if i < n - 1 {
        whole_is_at_most(w, cells, scale, i, n - 1);
    }
}

proof fn whole_grows(w: Seq<u64>, cells: nat, scale: nat, m: int, n: int)
    requires
        0 <= m <= n <= w.len(),
    ensures
        whole_sum(w, cells, scale, m) <= whole_sum(w, cells, scale, n),
    decreases n,
{
    if m < n {
        whole_grows(w, cells, scale, m, n - 1);
    }
}

fn sum_of(w: &Vec<u64>) -> (r: u128)
    ensures
        r == weight_sum(w@, w@.len() as int),
{
    let mut sum: u128 = 0;
    let mut i: usize = 0;
    while i < w.len()
        invariant
            i <= w@.len(),
            sum == weight_sum(w@, i as int),
            sum <= i * u64::MAX,
        decreases w@.len() - i,
    {
        assert(i * u64::MAX + u64::MAX == (i + 1) * u64::MAX) by (nonlinear_arith);
        assert((i + 1) * u64::MAX <= u128::MAX) by (nonlinear_arith)
            requires
                i < usize::MAX,
        ;
        sum = sum + w[i] as u128;
        i += 1;
    }
    sum
}

proof fn ones_weigh_as_many(w: Seq<u64>, n: int)
    requires
        0 <= n <= w.len(),
        forall|i: int| 0 <= i < w.len() ==> #[trigger] w[i] == 1,
    ensures
        weight_sum(w, n) == n,
    decreases n,
{
    if n > 0 {
        ones_weigh_as_many(w, n - 1);
    }
}

/// Split `cells` across `weights` in proportion, summing to exactly `cells`.
///
/// By the largest remainder rather than by a rounded share apiece: independent
/// rounding leaves a bar a cell or two short of the panel. Where all weights are
/// nothing, all are alike.
pub fn apportion(weights: &Vec<u64>, cells: usize) -> (r: Vec<usize>)
    ensures
        r@.len() == weights@.len(),
        forall|i: int| 0 <= i < r@.len() ==> #[trigger] r@[i] == share_of(weights@, cells as nat, i),
        weights@.len() > 0 ==> total(r@, r@.len() as int) == cells,
{
    if sum_of(weights) > 0 {
        return proportioned(weights, cells);
    }
    let mut alike: Vec<u64> = Vec::new();
    while alike.len() < weights.len()
        invariant
            alike@.len() <= weights@.len(),
            forall|i: int| 0 <= i < alike@.len() ==> #[trigger] alike@[i] == 1,
        decreases weights@.len() - alike@.len(),
    {
        alike.push(1);
    }
    assert(alike@ =~= evened(weights@));
    proof {
        ones_weigh_as_many(alike@, alike@.len() as int);
    }
    proportioned(&alike, cells)
}

fn proportioned(weights: &Vec<u64>, cells: usize) -> (r: Vec<usize>)
    ensures
        r@.len() == weights@.len(),
        forall|i: int| 0 <= i < r@.len() ==> #[trigger] r@[i] == part_of(weights@, cells as nat, i),
        weight_sum(weights@, weights@.len() as int) > 0 ==> total(r@, r@.len() as int) == cells,
{
    let ghost w = weights@;
    let ghost scale_nat = scale_of(w);
    let sum: u128 = sum_of(weights);
    let scale: u128 = if sum == 0 {
        1
    } else {
        sum
    };
    let mut out: Vec<usize> = Vec::new();
    let mut keys: Vec<Vec<u64>> = Vec::new();
    let mut used: usize = 0;
    let mut i: usize = 0;
    proof {
        whole_cells_fit(w, cells as nat);
    }
    while i < weights.len()
        invariant
            i <= weights@.len(),
            w == weights@,
            scale == scale_nat,
            scale_nat == scale_of(w),
            scale > 0,
            spare_cells(w, cells as nat) >= 0,
            out@.len() == i,
            keys@.len() == i,
            used == whole_sum(w, cells as nat, scale_nat, i as int),
            used == total(out@, i as int),
            forall|j: int| 0 <= j < i ==> #[trigger] out@[j] == whole_cells(w[j], cells as nat, scale_nat),
            forall|j: int|
                0 <= j < i ==> (#[trigger] keys@[j])@ == wide(beyond(w[j], cells as nat, scale_nat) as u128),
        decreases weights@.len() - i,
    {
        let x: u128 = weights[i] as u128;
        assert(x * cells <= u128::MAX) by (nonlinear_arith)
            requires
                x <= u64::MAX,
                cells <= u64::MAX,
        ;
        let worth: u128 = x * cells as u128;
        let whole: u128 = worth / scale;
        let rest: u128 = worth % scale;
        proof {
            assert(worth == w[i as int] as nat * cells as nat);
            assert(whole == whole_cells(w[i as int], cells as nat, scale_nat));
            assert(rest == beyond(w[i as int], cells as nat, scale_nat));
            whole_grows(w, cells as nat, scale_nat, i + 1, w.len() as int);
        }
        let ghost prior = out@;
        out.push(whole as usize);
        keys.push(wide_of(rest));
        used = used + whole as usize;
        proof {
            same_total(prior, out@, i as int);
        }
        i += 1;
    }
    assert(keys_of(keys@) =~= remainder_keys(w, cells as nat));
    let order = order_by(&keys, false);
    let ghost wholes = out@;
    let spare: usize = cells - used;
    assert forall|j: int| 0 <= j < w.len() implies #[trigger] wholes[j] <= used by {
        whole_is_at_most(w, cells as nat, scale_nat, j, w.len() as int);
    }
    let mut given: usize = 0;
    while given < spare && given < order.len()
        invariant
            given <= spare,
            given <= order@.len(),
            w == weights@,
            order@.len() == w.len(),
            lists_each(order@, w.len() as int),
            out@.len() == w.len(),
            wholes.len() == w.len(),
            used + spare == cells,
            total(out@, w.len() as int) == used + given,
            forall|j: int|
                0 <= j < out@.len() ==> #[trigger] out@[j] == wholes[j] + (if gets_spare(order@, given as int, j) {
                    1int
                } else {
                    0int
                }),
            forall|j: int| 0 <= j < w.len() ==> #[trigger] wholes[j] <= used,
        decreases spare - given,
    {
        let at: usize = order[given];
        let ghost prior = out@;
        proof {
            if gets_spare(order@, given as int, at as int) {
                let p = choose|p: int| 0 <= p < given && p < order@.len() && #[trigger] order@[p] == at;
                assert(order@[p] != order@[given as int]);
            }
            assert(wholes[at as int] <= used);
        }
        let more: usize = out[at] + 1;
        proof {
            one_more(prior, at as int, w.len() as int);
        }
        out.set(at, more);
        proof {
            assert forall|j: int| 0 <= j < out@.len() implies #[trigger] out@[j] == wholes[j] + (if gets_spare(
                order@,
                given + 1,
                j,
            ) {
                1int
            } else {
                0int
            }) by {
                if j == at {
                    assert(order@[given as int] == at);
                    assert(gets_spare(order@, given + 1, j));
                } else {
                    assert(out@[j] == prior[j]);
                    if gets_spare(order@, given as int, j) {
                        let p = choose|p: int| 0 <= p < given && p < order@.len() && #[trigger] order@[p] == j;
                        assert(order@[p] == j);
                        assert(gets_spare(order@, given + 1, j));
                    }
                    if gets_spare(order@, given + 1, j) {
                        let p = choose|p: int| 0 <= p < given + 1 && p < order@.len() && #[trigger] order@[p] == j;
                        assert(p < given);
                        assert(gets_spare(order@, given as int, j));
                    }
                }
            }
        }
        given += 1;
    }
    proof {
        assert forall|j: int| 0 <= j < out@.len() implies #[trigger] out@[j] == part_of(w, cells as nat, j) by {
            if given < spare {
                assert(gets_spare(order@, given as int, j) == gets_spare(order@, spare as int, j)) by {
                    if gets_spare(order@, spare as int, j) {
                        let p = choose|p: int| 0 <= p < spare && p < order@.len() && #[trigger] order@[p] == j;
                        assert(order@[p] == j);
                    }
                    if gets_spare(order@, given as int, j) {
                        let p = choose|p: int| 0 <= p < given && p < order@.len() && #[trigger] order@[p] == j;
                        assert(order@[p] == j);
                    }
                }
            }
        }
    }
    out
}

/// The cells of the first `n` slices.
pub open spec fn bar_cells(s: Seq<SliceView>, cells: nat, n: int) -> Seq<(char, Ink)>
    decreases n,
{
    if n <= 0 {
        Seq::empty()
    } else {
        bar_cells(s, cells, n - 1) + Seq::new(
            share_of(weights_of(s), cells, n - 1),
            |i: int| (s[n - 1].fill, s[n - 1].ink),
        )
    }
}

/// What the slices weigh.
pub open spec fn weights_of(s: Seq<SliceView>) -> Seq<u64> {
    s.map_values(|x: SliceView| x.tokens)
}

/// The cells of the bar, with the threshold marked.
pub open spec fn marked_bar(s: Seq<SliceView>, mark: Option<int>, cells: nat) -> Seq<(char, Ink)> {
    let bar = bar_cells(s, cells, s.len() as int);
    match mark {
        Some(at) => if 0 <= at < bar.len() {
            bar.update(at, ('┊', Ink::Dim))
        } else {
            bar
        },
        None => bar,
    }
}

/// The cells as spans: runs of one ink become one span.
pub open spec fn runs(cells: Seq<(char, Ink)>) -> Seq<SpanView>
    decreases cells.len(),
{
    if cells.len() == 0 {
        Seq::empty()
    } else {
        let before = runs(cells.drop_last());
        let (glyph, ink) = cells.last();
        if before.len() > 0 && before.last().ink == ink {
            before.update(before.len() - 1, SpanView { text: before.last().text.push(glyph), ..before.last() })
        } else {
            before.push(SpanView { text: seq![glyph], ink, bold: false })
        }
    }
}

/// How many characters the spans have.
pub open spec fn glyphs(spans: Seq<SpanView>) -> nat
    decreases spans.len(),
{
    if spans.len() == 0 {
        0
    } else {
        glyphs(spans.drop_last()) + spans.last().text.len()
    }
}

/// Joining cells into runs loses none of them.
pub proof fn runs_keep_every_cell(cells: Seq<(char, Ink)>)
    ensures
        glyphs(runs(cells)) == cells.len(),
    decreases cells.len(),
{
    if cells.len() > 0 {
        let before = runs(cells.drop_last());
        runs_keep_every_cell(cells.drop_last());
        let after = runs(cells);
        if before.len() > 0 && before.last().ink == cells.last().1 {
            assert(after.drop_last() =~= before.drop_last());
        } else {
            assert(after.drop_last() =~= before);
        }
    }
}

fn runs_of(cells: &Vec<(char, Ink)>) -> (r: Line)
    ensures
        r@ == (LineView { spans: runs(cells@), failed: false, selected: false }),
{
    let mut l = Line::new();
    let mut i: usize = 0;
    assert(l@.spans =~= runs(cells@.take(0)));
    while i < cells.len()
        invariant
            i <= cells@.len(),
            l@ == (LineView { spans: runs(cells@.take(i as int)), failed: false, selected: false }),
        decreases cells@.len() - i,
    {
        let (glyph, ink) = cells[i];
        let ghost now = cells@.take(i + 1);
        proof {
            assert(now.drop_last() =~= cells@.take(i as int));
            assert(now.last() == cells@[i as int]);
        }
        let ghost before = l@.spans;
        let n: usize = l.spans.len();
        assert(before.len() == n);
        if n > 0 && l.spans[n - 1].ink == ink {
            assert(before.last() == l.spans@[n - 1]@);
            let ghost was = l.spans@;
            let mut text = l.spans[n - 1].text.clone();
            text.push(glyph);
            let bold = l.spans[n - 1].bold;
            l.spans.set(n - 1, Span { text, ink, bold });
            assert(l@.spans =~= before.update(
                n - 1,
                SpanView { text: before.last().text.push(glyph), ..before.last() },
            ));
        } else {
            if n > 0 {
                assert(before.last() == l.spans@[n - 1]@);
            }
            let mut text = String::new();
            text.push(glyph);
            assert(text@ =~= seq![glyph]);
            l.push(Span { text, ink, bold: false });
        }
        i += 1;
    }
    assert(cells@.take(i as int) =~= cells@);
    l
}

/// A bar's width: that of the panel, and a cell at the least.
pub open spec fn bar_width(width: int) -> nat {
    if width < 1 {
        1
    } else {
        width as nat
    }
}

/// Every category in one bar, in the legend's order, spanning the panel. The
/// mark of the threshold replaces a cell, so that the bar keeps its length.
pub fn stacked_bar(slices: &Vec<Slice>, compaction: Option<usize>, width: u16) -> (r: Line)
    ensures
        r@ == (LineView {
            spans: runs(
                marked_bar(
                    says(slices@),
                    match compaction {
                        Some(at) => Some(at as int),
                        None => None,
                    },
                    bar_width(width as int),
                ),
            ),
            failed: false,
            selected: false,
        }),
{
    let ghost sv = says(slices@);
    let cells: usize = if width < 1 {
        1
    } else {
        width as usize
    };
    let mut weights: Vec<u64> = Vec::new();
    let mut i: usize = 0;
    while i < slices.len()
        invariant
            i <= slices@.len(),
            sv == says(slices@),
            weights@ == weights_of(sv).take(i as int),
        decreases slices@.len() - i,
    {
        weights.push(slices[i].tokens);
        assert(sv[i as int] == slices@[i as int]@);
        assert(weights@ =~= weights_of(sv).take(i + 1));
        i += 1;
    }
    assert(weights@ =~= weights_of(sv));
    let parts = apportion(&weights, cells);
    let mut bar: Vec<(char, Ink)> = Vec::new();
    let mut k: usize = 0;
    while k < slices.len()
        invariant
            k <= slices@.len(),
            sv == says(slices@),
            weights@ == weights_of(sv),
            parts@.len() == slices@.len(),
            forall|j: int| 0 <= j < parts@.len() ==> #[trigger] parts@[j] == share_of(weights@, cells as nat, j),
            bar@ == bar_cells(sv, cells as nat, k as int),
        decreases slices@.len() - k,
    {
        let n: usize = parts[k];
        let fill = slices[k].fill;
        let ink = slices[k].ink;
        assert(sv[k as int] == slices@[k as int]@);
        let ghost before = bar@;
        let mut c: usize = 0;
        assert(bar@ =~= before + Seq::new(0, |j: int| (fill, ink)));
        while c < n
            invariant
                c <= n,
                bar@ == before + Seq::new(c as nat, |j: int| (fill, ink)),
            decreases n - c,
        {
            bar.push((fill, ink));
            assert(bar@ =~= before + Seq::new((c + 1) as nat, |j: int| (fill, ink)));
            c += 1;
        }
        assert(bar@ =~= bar_cells(sv, cells as nat, k + 1));
        k += 1;
    }
    assert(sv.len() == slices@.len());
    match compaction {
        Some(at) => {
            if at < bar.len() {
                bar.set(at, ('┊', Ink::Dim));
            }
        },
        None => {},
    }
    runs_of(&bar)
}

/// A bar with anything in it is as long as the panel is wide.
pub proof fn a_bar_fills_the_panel(s: Seq<SliceView>, r: Seq<usize>, mark: Option<int>, cells: nat)
    requires
        r.len() == s.len(),
        forall|i: int| 0 <= i < r.len() ==> #[trigger] r[i] == share_of(weights_of(s), cells, i),
        total(r, r.len() as int) == cells,
    ensures
        marked_bar(s, mark, cells).len() == cells,
{
    bar_is_as_long_as_its_parts(s, r, cells, s.len() as int);
}

proof fn bar_is_as_long_as_its_parts(s: Seq<SliceView>, r: Seq<usize>, cells: nat, n: int)
    requires
        0 <= n <= s.len(),
        r.len() == s.len(),
        forall|i: int| 0 <= i < r.len() ==> #[trigger] r[i] == share_of(weights_of(s), cells, i),
    ensures
        bar_cells(s, cells, n).len() == total(r, n),
    decreases n,
{
    if n > 0 {
        bar_is_as_long_as_its_parts(s, r, cells, n - 1);
        assert(r[n - 1] == share_of(weights_of(s), cells, n - 1));
    }
}

/// What the shares are of.
pub open spec fn scale_tokens(s: Seq<SliceView>) -> nat {
    let sum = tokens_in(s, s.len() as int);
    if sum == 0 {
        1
    } else {
        sum
    }
}

/// A row of the legend: `n` entries from `from` on.
pub open spec fn legend_row(s: Seq<SliceView>, from: int, n: int) -> LineView
    decreases n,
{
    if n <= 0 {
        blank()
    } else {
        let one = s[from + n - 1];
        let l = legend_row(s, from, n - 1);
        let l = if n > 1 {
            l.with("   "@, Ink::Plain)
        } else {
            l
        };
        l.with(seq![one.fill] + " "@, one.ink).with(left_in(one.name, 14), Ink::Value).with(
            right_in(tokens_text(one.tokens as nat), 7),
            one.ink,
        ).with(" "@ + right_in(dec(percent(one.tokens as nat, scale_tokens(s))), 3) + "%"@, Ink::Dim)
    }
}

/// How many entries stand in the row from `from` on.
pub open spec fn in_row(len: int, from: int, columns: int) -> int {
    if len - from < columns {
        len - from
    } else {
        columns
    }
}

/// The rows of the legend from entry `from` on.
pub open spec fn legend_lines(s: Seq<SliceView>, from: int, columns: int) -> Seq<LineView>
    decreases (if from < s.len() { s.len() - from } else { 0 }),
{
    if from >= s.len() || columns <= 0 {
        nothing()
    } else {
        nothing().push(legend_row(s, from, in_row(s.len() as int, from, columns))) + legend_lines(
            s,
            from + columns,
            columns,
        )
    }
}

/// How many entries a row of the legend has room for.
pub open spec fn legend_columns(width: int) -> int {
    if width >= 64 {
        2
    } else {
        1
    }
}

/// Swatch, name, tokens and share of each category, two to a line where it fits.
///
/// Shares are of the whole window, free space among it, so that an entry and its
/// segment of the bar are always the same length of the same thing.
pub fn legend(slices: &Vec<Slice>, width: u16) -> (r: Text)
    requires
        tokens_in(says(slices@), slices@.len() as int) <= MOST,
    ensures
        r@ == legend_lines(says(slices@), 0, legend_columns(width as int)),
{
    let ghost sv = says(slices@);
    let (sum, _) = sums(slices);
    assert(sv.len() == slices@.len());
    let scale: u128 = if sum == 0 {
        1
    } else {
        sum
    };
    let columns: usize = if width >= 64 {
        2
    } else {
        1
    };
    let mut t = Text::new();
    let mut from: usize = 0;
    assert(t@ + legend_lines(sv, 0, columns as int) =~= legend_lines(sv, 0, columns as int));
    let total: usize = slices.len();
    while from < total
        invariant
            from <= total,
            total == slices@.len(),
            1 <= columns <= 2,
            sv == says(slices@),
            sv.len() == slices@.len(),
            scale == scale_tokens(sv),
            scale <= MOST,
            t@ + legend_lines(sv, from as int, columns as int) == legend_lines(sv, 0, columns as int),
        decreases slices@.len() - from,
    {
        let n: usize = if total - from < columns {
            total - from
        } else {
            columns
        };
        let mut l = Line::new();
        let mut k: usize = 0;
        while k < n
            invariant
                k <= n,
                from + n <= total,
                total == slices@.len(),
                sv == says(slices@),
                scale == scale_tokens(sv),
                scale <= MOST,
                l@ == legend_row(sv, from as int, k as int),
            decreases n - k,
        {
            let one = &slices[from + k];
            assert(sv[from + k] == one@);
            if k > 0 {
                l.put("   ", Ink::Plain);
            }
            let mut swatch = String::new();
            swatch.push(one.fill);
            assert(swatch@ =~= seq![one.fill]);
            l.put(cat(swatch.as_str(), " ").as_str(), one.ink);
            l.put(pad_right(one.name, 14).as_str(), Ink::Value);
            l.put(pad_left(compact_tokens(one.tokens as u128).as_str(), 7).as_str(), one.ink);
            let share: u128 = percent_of(one.tokens as u128, scale);
            let mut s = cat(" ", pad_left(decimal(share).as_str(), 3).as_str());
            s.append("%");
            l.put(s.as_str(), Ink::Dim);
            k += 1;
        }
        let ghost was = t@;
        let ghost row = l@;
        t.push(l);
        assert(t@ + legend_lines(sv, from + columns, columns as int) =~= was + (nothing().push(row) + legend_lines(
            sv,
            from + columns,
            columns as int,
        )));
        proof {
            if n < columns {
                assert(legend_lines(sv, from + columns, columns as int) =~= legend_lines(sv, from + n, columns as int));
            }
        }
        from = from + n;
    }
    assert(t@ =~= t@ + legend_lines(sv, from as int, columns as int));
    t
}

/// The size of the window, how full it is, and how much is left.
pub open spec fn header_line(s: Session, b: ContextBreakdown) -> LineView {
    let l = blank().with("Window"@, Ink::Label).with("  "@, Ink::Plain).with(tokens_text(b.total as nat), Ink::Value);
    match s.context {
        None => l.with(" "@, Ink::Plain).with("in the live conversation"@, Ink::Dim),
        Some(c) => {
            let l = l.with(" of "@ + tokens_text(c.max as nat), Ink::Dim).with("   "@, Ink::Plain);
            if b.superseded {
                if s.compacting() {
                    l.with_bold("compacting…"@, Ink::High)
                } else {
                    l.with("as it stood before the last compaction"@, Ink::Dim)
                }
            } else {
                let pct = percent(c.used as nat, c.compact_at as nat);
                let left = if c.compact_at > b.total {
                    (c.compact_at - b.total) as nat
                } else {
                    0
                };
                l.with_bold(dec(pct) + "%"@, Ink::Share(pct as u128)).with(" to compaction"@, Ink::Dim).with(
                    "   "@,
                    Ink::Plain,
                ).with(tokens_text(left), Ink::Value).with(" left"@, Ink::Dim)
            }
        },
    }
}

/// What the header says is left, together with what the window holds, comes to where
/// compaction is triggered; nothing is left once the window holds as much. And it
/// says what the window holds and what it is large.
pub proof fn what_is_left_and_what_is_held_make_the_threshold(s: Session, b: ContextBreakdown, left: nat)
    requires
        s.context is Some,
        !b.superseded,
        left + b.total == s.context->0.compact_at || (left == 0 && b.total >= s.context->0.compact_at),
    ensures
        ({
            let spans = header_line(s, b).spans;
            &&& spans.len() == 10
            &&& spans[0].text == "Window"@
            &&& spans[2].text == tokens_text(b.total as nat)
            &&& spans[3].text == " of "@ + tokens_text(s.context->0.max as nat)
            &&& spans[8].text == tokens_text(left)
            &&& spans[9].text == " left"@
        }),
{
}

/// The header's percentage is the nearest whole one of what is used to where
/// compaction is triggered.
pub proof fn the_header_says_how_full_the_window_is(s: Session, b: ContextBreakdown)
    requires
        s.context is Some,
        !b.superseded,
        0 < s.context->0.compact_at,
        s.context->0.used < 0x400_0000_0000,
    ensures
        header_line(s, b).spans[6].text == " to compaction"@,
        header_line(s, b).spans[5].text.last() == '%',
        ({
            let pct = crate::text::reading(header_line(s, b).spans[5].text);
            &&& 2 * (pct * s.context->0.compact_at - 100 * s.context->0.used) <= s.context->0.compact_at
            &&& 2 * (100 * s.context->0.used - pct * s.context->0.compact_at) <= s.context->0.compact_at
        }),
{
    let c = s.context->0;
    let p = percent(c.used as nat, c.compact_at as nat);
    crate::figures::a_percentage_is_near(c.used as nat, c.compact_at as nat);
    reveal_strlit("%");
    assert(header_line(s, b).spans[5].text == dec(p) + "%"@);
    crate::text::only_digits_are_read(dec(p), "%"@);
    crate::text::a_number_reads_back(p);
}

/// Of a window that was compacted away nothing is said to be left.
pub proof fn nothing_is_promised_across_a_compaction(s: Session, b: ContextBreakdown)
    requires
        s.context is Some,
        b.superseded,
    ensures
        header_line(s, b).spans.len() == 6,
        header_line(s, b).spans[2].text == tokens_text(b.total as nat),
        header_line(s, b).spans[5].text == (if s.compacting() {
            "compacting…"@
        } else {
            "as it stood before the last compaction"@
        }),
{
}

/// Window size, how full it is, and how much is left before auto-compaction.
///
/// Headroom cannot be stated across a compaction: the window is the one that was
/// compacted away.
pub fn context_header(session: &Session, b: &ContextBreakdown) -> (r: Line)
    ensures
        r@ == header_line(*session, *b),
{
    let mut l = Line::new();
    l.put("Window", Ink::Label);
    l.put("  ", Ink::Plain);
    l.put(compact_tokens(b.total as u128).as_str(), Ink::Value);
    match session.context {
        None => {
            l.put(" ", Ink::Plain);
            l.put("in the live conversation", Ink::Dim);
        },
        Some(c) => {
            l.put(cat(" of ", compact_tokens(c.max as u128).as_str()).as_str(), Ink::Dim);
            l.put("   ", Ink::Plain);
            if b.superseded {
                if session.is_compacting() {
                    l.put_bold("compacting…", Ink::High);
                } else {
                    l.put("as it stood before the last compaction", Ink::Dim);
                }
            } else {
                let pct: u128 = percent_of(c.used as u128, c.compact_at as u128);
                l.put_bold(cat(decimal(pct).as_str(), "%").as_str(), Ink::Share(pct));
                l.put(" to compaction", Ink::Dim);
                l.put("   ", Ink::Plain);
                l.put(compact_tokens(c.compact_at.saturating_sub(b.total) as u128).as_str(), Ink::Value);
                l.put(" left", Ink::Dim);
            }
        },
    }
    l
}

/// Lines of dim text.
pub open spec fn dim_lines(texts: Seq<Seq<char>>, n: int) -> Seq<LineView>
    decreases n,
{
    if n <= 0 {
        nothing()
    } else {
        dim_lines(texts, n - 1).push(blank().with(texts[n - 1], Ink::Dim))
    }
}

/// What was measured.
pub open spec fn measured_text(b: ContextBreakdown, file: Seq<char>) -> Seq<char> {
    if b.after_compaction {
        "Measured: Window, and Startup — this segment's first request (system prompt, tool schemas, "@ + file + ", skills index, compaction summary), which the transcript cannot split further."@
    } else {
        "Measured: Window, and Startup — the first request (system prompt, tool schemas, "@ + file + ", skills index), which the transcript cannot split further."@
    }
}

/// What was estimated, and what the mark on the bar is.
pub open spec fn estimated_text(b: ContextBreakdown, marked: bool) -> Seq<char> {
    (if b.gap() >= 0 {
        "Estimated from transcript characters: everything else — read as proportions. Unaccounted is thinking (stored stripped), the harness's per-turn reminders, and estimation error."@
    } else {
        "Estimated from transcript characters: everything else — read as proportions. Here they overshoot the window, which means the harness has dropped context the transcript still holds."@
    }) + (if marked {
        " ┊ on the bar is where auto-compaction triggers."@
    } else {
        ""@
    }) + (if b.superseded {
        " A compaction has since replaced this window; nothing has measured what took its place."@
    } else {
        ""@
    })
}

/// The notes under the bar, wrapped.
pub open spec fn footnote_lines(b: ContextBreakdown, file: Seq<char>, marked: bool, width: int) -> Seq<LineView> {
    let w = if width < 20 {
        20
    } else {
        width
    };
    let first = wrapped(measured_text(b, file), w);
    let second = wrapped(estimated_text(b, marked), w);
    dim_lines(first, first.len() as int) + dim_lines(second, second.len() as int)
}

fn dim_text(text: &str, width: usize) -> (r: Text)
    requires
        width > 0,
    ensures
        r@ == dim_lines(wrapped(text@, width as int), wrapped(text@, width as int).len() as int),
{
    let texts = wrap(text, width);
    let ghost says = words(texts@);
    let mut t = Text::new();
    let mut i: usize = 0;
    while i < texts.len()
        invariant
            i <= texts@.len(),
            says == words(texts@),
            t@ == dim_lines(says, i as int),
        decreases texts@.len() - i,
    {
        assert(says[i as int] == texts@[i as int]@);
        t.push(line_of(texts[i].as_str(), Ink::Dim));
        i += 1;
    }
    assert(says.len() == texts@.len());
    t
}

/// Which numbers were measured and which were guessed.
pub fn context_footnotes(b: &ContextBreakdown, file: &str, marked: bool, width: u16) -> (r: Text)
    ensures
        r@ == footnote_lines(*b, file@, marked, width as int),
{
    let w: usize = if width < 20 {
        20
    } else {
        width as usize
    };
    let first = if b.after_compaction {
        between(
            "Measured: Window, and Startup — this segment's first request (system prompt, tool schemas, ",
            file,
            ", skills index, compaction summary), which the transcript cannot split further.",
        )
    } else {
        between(
            "Measured: Window, and Startup — the first request (system prompt, tool schemas, ",
            file,
            ", skills index), which the transcript cannot split further.",
        )
    };
    let mut second = (if b.unaccounted() >= 0 {
        "Estimated from transcript characters: everything else — read as proportions. Unaccounted is thinking (stored stripped), the harness's per-turn reminders, and estimation error."
    } else {
        "Estimated from transcript characters: everything else — read as proportions. Here they overshoot the window, which means the harness has dropped context the transcript still holds."
    }).to_owned();
    second.append(if marked { " ┊ on the bar is where auto-compaction triggers." } else { "" });
    second.append(
        if b.superseded {
            " A compaction has since replaced this window; nothing has measured what took its place."
        } else {
            ""
        },
    );
    let mut t = dim_text(first.as_str(), w);
    t.append(dim_text(second.as_str(), w));
    t
}

/// The largest window among the first `n` requests, and `least` at the least.
pub open spec fn largest(points: Seq<CtxPoint>, least: u64, n: int) -> u64
    decreases n,
{
    if n <= 0 {
        least
    } else {
        let m = largest(points, least, n - 1);
        if points[n - 1].window > m {
            points[n - 1].window
        } else {
            m
        }
    }
}

fn largest_of(points: &Vec<CtxPoint>, least: u64) -> (r: u64)
    ensures
        r == largest(points@, least, points@.len() as int),
{
    let mut m: u64 = least;
    let mut i: usize = 0;
    while i < points.len()
        invariant
            i <= points@.len(),
            m == largest(points@, least, i as int),
        decreases points@.len() - i,
    {
        if points[i].window > m {
            m = points[i].window;
        }
        i += 1;
    }
    m
}

/// What the chart's height stands for: the window, so that it means the same
/// thing as the bar above it; the tallest point where the window is not known.
pub fn chart_scale(session: &Session, data: &SessionData) -> (r: u64)
    ensures
        r == (if session.context is Some && session.context->0.max > 0 {
            session.context->0.max
        } else {
            largest(data.context_series@, 1, data.context_series@.len() as int)
        }),
{
    match session.context {
        Some(c) => {
            if c.max > 0 {
                return c.max;
            }
        },
        None => {},
    }
    largest_of(&data.context_series, 1)
}

/// What the chart is headed with.
pub open spec fn timeline_head(d: SessionData) -> LineView {
    let n = d.context_series@.len() as int;
    blank().with("How it filled  "@, Ink::Label).with(dec(n as nat) + " requests"@, Ink::Dim).with(
        "   peak "@,
        Ink::Dim,
    ).with(tokens_text(largest(d.context_series@, 0, n) as nat), Ink::Value).with(
        if d.compactions == 0 {
            ""@
        } else {
            "   "@ + dec(d.compactions as nat) + " compaction"@ + (if d.compactions == 1 {
                ""@
            } else {
                "s"@
            })
        },
        Ink::Dim,
    )
}

/// How often a session is compacted, spelled out.
pub open spec fn thrash_lines(s: Session, compactions: u64) -> Seq<LineView> {
    match (ms_of(s.started_at@), ms_of(s.last_active@)) {
        (Some(from), Some(to)) => if compactions >= 3 && since(from, to) / compactions as nat > 0 {
            nothing().push(
                blank().with(
                    "↺ one compaction every "@ + span_text(since(from, to) / compactions as nat),
                    Ink::Mid,
                ).with(
                    " — each one re-sends the conversation as a summary the model has to read again"@,
                    Ink::Dim,
                ),
            )
        } else {
            nothing()
        },
        _ => nothing(),
    }
}

/// What a session living on compactions is paying for, spelled out.
///
/// Three compactions over two days is a long conversation, three in twenty
/// minutes is a session that keeps refilling its window, and a chart draws those
/// identically. Below three there is no cadence yet.
pub fn thrash_note(session: &Session, compactions: u64) -> (r: Text)
    ensures
        r@ == thrash_lines(*session, compactions),
{
    let mut t = Text::new();
    if compactions < 3 {
        return t;
    }
    let from: i128 = match millis_of(session.started_at.as_str()) {
        Some(m) => m,
        None => {
            return t;
        },
    };
    let to: i128 = match millis_of(session.last_active.as_str()) {
        Some(m) => m,
        None => {
            return t;
        },
    };
    let span: u128 = if to > from {
        (to - from) as u128
    } else {
        0
    };
    let every: u128 = span / compactions as u128;
    if every == 0 {
        return t;
    }
    let mut l = Line::new();
    l.put(cat("↺ one compaction every ", compact_duration(every).as_str()).as_str(), Ink::Mid);
    l.put(" — each one re-sends the conversation as a summary the model has to read again", Ink::Dim);
    t.push(l);
    t
}

/// How the window filled: a heading, the chart, and what it costs.
pub open spec fn timeline_lines(s: Session, d: SessionData, width: int, chart: Seq<LineView>) -> Seq<LineView> {
    if d.context_series@.len() < 3 || width < 24 {
        nothing()
    } else {
        nothing().push(blank()).push(timeline_head(d)) + chart + thrash_lines(s, d.compactions)
    }
}

/// The window across every request the session made, under the bar that shows
/// what it holds.
///
/// Two points are a line between two measurements, and a narrow panel has no room
/// for a chart: either way there is none. `chart` is the series drawn at the
/// scale of [`chart_scale`].
pub fn context_timeline(session: &Session, data: &SessionData, width: u16, chart: Text) -> (r: Text)
    ensures
        r@ == timeline_lines(*session, *data, width as int, chart@),
{
    let mut t = Text::new();
    if data.context_series.len() < 3 || width < 24 {
        return t;
    }
    t.gap();
    let mut l = Line::new();
    l.put("How it filled  ", Ink::Label);
    l.put(cat(decimal(data.context_series.len() as u128).as_str(), " requests").as_str(), Ink::Dim);
    l.put("   peak ", Ink::Dim);
    let peak: u64 = largest_of(&data.context_series, 0);
    l.put(compact_tokens(peak as u128).as_str(), Ink::Value);
    let s = if data.compactions == 0 {
        "".to_owned()
    } else {
        let mut s = cat("   ", decimal(data.compactions as u128).as_str());
        s.append(" compaction");
        s.append(if data.compactions == 1 { "" } else { "s" });
        s
    };
    l.put(s.as_str(), Ink::Dim);
    t.push(l);
    t.append(chart);
    t.append(thrash_note(session, data.compactions));
    t
}

/// The Context panel of a window that was broken down as `b`.
pub open spec fn context_lines(
    s: Session,
    d: SessionData,
    b: ContextBreakdown,
    file: Seq<char>,
    width: int,
    chart: Seq<LineView>,
) -> Seq<LineView> {
    let slices = slices_of(s, b);
    let mark = marked_cell(s, slices, b.superseded, width);
    nothing().push(header_line(s, b)).push(blank()).push(
        LineView { spans: runs(marked_bar(slices, mark, bar_width(width))), failed: false, selected: false },
    ).push(blank()) + legend_lines(slices, 0, legend_columns(width)) + nothing().push(blank()) + footnote_lines(
        b,
        file,
        mark is Some,
        width,
    ) + timeline_lines(s, d, width, chart)
}

/// The Context panel.
///
/// The shares are drawn as one stacked bar rather than as a bar apiece: the
/// question is what proportion of a single window each category holds. `chart` is
/// the series of requests, drawn, and `file` the one an agent's instructions are in.
pub fn context(session: &Session, data: Option<&SessionData>, file: &str, width: u16, chart: Text) -> (r: Text)
    ensures
        match data {
            None => r@ == nothing().push(blank().with("Loading…"@, Ink::Dim)),
            Some(d) => match d.context_breakdown {
                None => r@ == nothing().push(
                    blank().with(
                        "This transcript reports no per-request usage — nothing to break down."@,
                        Ink::Dim,
                    ),
                ),
                Some(b) => r@ == context_lines(*session, *d, b, file@, width as int, chart@),
            },
        },
{
    let d = match data {
        None => {
            return note("Loading…", Ink::Dim);
        },
        Some(d) => d,
    };
    let b = match &d.context_breakdown {
        None => {
            return note("This transcript reports no per-request usage — nothing to break down.", Ink::Dim);
        },
        Some(b) => b,
    };
    let all = slices(session, b);
    proof {
        few_can_be_shown(says(all@), all@.len() as int);
    }
    let mark = compaction_cell(session, &all, b.superseded, width);
    let mut t = Text::new();
    t.push(context_header(session, b));
    t.gap();
    t.push(stacked_bar(&all, mark, width));
    t.gap();
    t.append(legend(&all, width));
    let ghost was = t@;
    t.gap();
    assert(t@ =~= was + nothing().push(blank()));
    t.append(context_footnotes(b, file, mark.is_some(), width));
    t.append(context_timeline(session, d, width, chart));
    t
}

proof fn kept_are_those_that_hold(all: Seq<SliceView>, n: int, i: int)
    requires
        0 <= n <= all.len(),
        0 <= i < n,
    ensures
        all[i].tokens > 0 ==> kept(all, n).contains(all[i]),
    decreases n,
{
    if all[i].tokens > 0 {
        let here = kept(all, n);
        if i == n - 1 {
            assert(here[here.len() - 1] == all[i]);
        } else {
            kept_are_those_that_hold(all, n - 1, i);
            let before = kept(all, n - 1);
            let k = choose|k: int| 0 <= k < before.len() && before[k] == all[i];
            assert(here[k] == all[i]);
        }
    }
}

proof fn only_those_are_kept(all: Seq<SliceView>, n: int, k: int)
    requires
        0 <= n <= all.len(),
        0 <= k < kept(all, n).len(),
    ensures
        kept(all, n)[k].tokens > 0,
        exists|i: int| 0 <= i < n && #[trigger] all[i] == kept(all, n)[k],
    decreases n,
{
    if n > 0 {
        if k < kept(all, n - 1).len() {
            only_those_are_kept(all, n - 1, k);
        } else {
            assert(all[n - 1] == kept(all, n)[k]);
        }
    }
}

proof fn a_listing_keeps_all(s: Seq<SliceView>, i: int)
    requires
        s.len() <= usize::MAX,
        0 <= i < s.len(),
    ensures
        picked(s, sorted(size_keys(s), false)).contains(s[i]),
{
    let order = sorted(size_keys(s), false);
    crate::order::every_row_has_its_place(size_keys(s), false);
    crate::order::every_row_listed(order, s.len() as int, i);
    let p = choose|p: int| 0 <= p < order.len() && #[trigger] order[p] == i;
    assert(picked(s, order)[p] == s[i]);
}

/// Every category that the window holds anything of is told with its own tokens, and
/// one it holds nothing of is not told.
pub proof fn a_category_has_its_own_tokens(s: Session, b: ContextBreakdown, k: int)
    requires
        0 <= k < slices_of(s, b).len(),
    ensures
        b.startup > 0 ==> slices_of(s, b).contains(held("Startup"@, b.startup, Ink::PanelTitle)),
        b.tool_output > 0 ==> slices_of(s, b).contains(held("Tool output"@, b.tool_output, Ink::Accent)),
        b.tool_input > 0 ==> slices_of(s, b).contains(held("Tool input"@, b.tool_input, Ink::Chart(0))),
        b.attachments > 0 ==> slices_of(s, b).contains(held("Attachments"@, b.attachments, Ink::Name)),
        b.user_text > 0 ==> slices_of(s, b).contains(held("Your messages"@, b.user_text, Ink::Low)),
        b.assistant_text > 0 ==> slices_of(s, b).contains(held("Assistant text"@, b.assistant_text, Ink::Chart(1))),
        s.context matches Some(c) ==> (c.max > b.total ==> slices_of(s, b).last() == (SliceView {
            name: "Free"@,
            tokens: (c.max - b.total) as u64,
            ink: Ink::Dimmer,
            fill: '░',
        })),
        slices_of(s, b)[k].tokens > 0,
{
    let cats = categories(b);
    let all = kept(cats, 6);
    kept_at_most(cats, 6);
    let t = by_size(b);
    let out = slices_of(s, b);
    assert(t.len() <= out.len());
    assert(forall|i: int| 0 <= i < t.len() ==> #[trigger] out[i] == t[i]);
    assert forall|i: int| 0 <= i < 6 && (#[trigger] cats[i]).tokens > 0 implies out.contains(cats[i]) by {
        kept_are_those_that_hold(cats, 6, i);
        let j = choose|j: int| 0 <= j < all.len() && all[j] == cats[i];
        a_listing_keeps_all(all, j);
        let p = choose|p: int| 0 <= p < t.len() && t[p] == all[j];
        assert(out[p] == cats[i]);
    }
    assert(cats[0] == held("Startup"@, b.startup, Ink::PanelTitle));
    assert(cats[1] == held("Tool output"@, b.tool_output, Ink::Accent));
    assert(cats[2] == held("Tool input"@, b.tool_input, Ink::Chart(0)));
    assert(cats[3] == held("Attachments"@, b.attachments, Ink::Name));
    assert(cats[4] == held("Your messages"@, b.user_text, Ink::Low));
    assert(cats[5] == held("Assistant text"@, b.assistant_text, Ink::Chart(1)));
    let order = sorted(size_keys(all), false);
    crate::order::every_row_has_its_place(size_keys(all), false);
    if k < t.len() {
        only_those_are_kept(cats, 6, order[k] as int);
        assert(t[k] == all[order[k] as int]);
    }
}

proof fn kept_at_most(all: Seq<SliceView>, n: int)
    ensures
        n >= 0 ==> kept(all, n).len() <= n,
    decreases n,
{
    if n > 0 {
        kept_at_most(all, n - 1);
    }
}

/// The categories are told from the largest down.
pub proof fn the_largest_category_is_first(b: ContextBreakdown, i: int, j: int)
    requires
        0 <= i < j < by_size(b).len(),
    ensures
        by_size(b)[i].tokens >= by_size(b)[j].tokens,
{
    let all = kept(categories(b), 6);
    kept_at_most(categories(b), 6);
    let keys = size_keys(all);
    crate::order::every_row_has_its_place(keys, false);
    let order = sorted(keys, false);
    let (x, y) = (order[i] as int, order[j] as int);
    assert(crate::order::goes_before(keys, false, x, y));
    assert(keys[x][0] == all[x].tokens && keys[y][0] == all[y].tokens);
}

proof fn a_legend_entry_stays(s: Seq<SliceView>, from: int, n: int, c: int)
    requires
        0 <= from,
        0 <= c < n,
        from + n <= s.len(),
    ensures
        ({
            let spans = legend_row(s, from, n).spans;
            let one = s[from + c];
            &&& spans.len() == 5 * n - 1
            &&& spans[5 * c].text == seq![one.fill] + " "@
            &&& spans[5 * c].ink == one.ink
            &&& spans[5 * c + 1].text == left_in(one.name, 14)
            &&& spans[5 * c + 2].text == right_in(tokens_text(one.tokens as nat), 7)
            &&& spans[5 * c + 3].text == " "@ + right_in(dec(percent(one.tokens as nat, scale_tokens(s))), 3) + "%"@
        }),
    decreases n,
{
    if n > 1 {
        a_legend_entry_stays(s, from, n - 1, if c < n - 1 {
            c
        } else {
            0
        });
    } else {
        assert(legend_row(s, from, 0) == blank());
    }
}

proof fn a_row_of_the_legend(s: Seq<SliceView>, from: int, columns: int, k: int)
    requires
        columns > 0,
        0 <= from,
        0 <= k,
        from + k * columns < s.len(),
    ensures
        legend_lines(s, from, columns).len() > k,
        legend_lines(s, from, columns)[k] == legend_row(
            s,
            from + k * columns,
            in_row(s.len() as int, from + k * columns, columns),
        ),
    decreases k,
{
    assert(0 <= k * columns) by (nonlinear_arith)
        requires
            0 <= k,
            columns > 0,
    ;
    if k > 0 {
        assert(from + columns + (k - 1) * columns == from + k * columns) by (nonlinear_arith);
        a_row_of_the_legend(s, from + columns, columns, k - 1);
        assert(0 <= (k - 1) * columns) by (nonlinear_arith)
            requires
                0 < k,
                columns > 0,
        ;
    } else {
        assert(0 * columns == 0) by (nonlinear_arith);
    }
}

/// Every slice of the bar stands in the legend under its own colour, with its own
/// name, its own tokens and what share of the window those are.
pub proof fn every_slice_is_in_the_legend(s: Seq<SliceView>, width: int, i: int)
    requires
        0 <= i < s.len(),
    ensures
        ({
            let columns = if width >= 64 {
                2int
            } else {
                1
            };
            let spans = legend_lines(s, 0, legend_columns(width))[i / columns].spans;
            let at = 5 * (i % columns);
            &&& spans[at].text[0] == s[i].fill
            &&& spans[at].ink == s[i].ink
            &&& spans[at + 1].text == left_in(s[i].name, 14)
            &&& spans[at + 2].text == right_in(tokens_text(s[i].tokens as nat), 7)
            &&& spans[at + 2].ink == s[i].ink
            &&& s[i].tokens < 0x400_0000_0000 ==> {
                let pct = crate::text::reading(spans[at + 3].text);
                let whole = tokens_in(s, s.len() as int);
                whole > 0 ==> 2 * (pct * whole - 100 * s[i].tokens) <= whole && 2 * (100 * s[i].tokens - pct * whole)
                    <= whole
            }
        }),
{
    let columns = legend_columns(width);
    let (k, c) = (i / columns, i % columns);
    assert(k * columns + c == i && 0 <= k && 0 <= c < columns) by {
        vstd::arithmetic::div_mod::lemma_fundamental_div_mod(i, columns);
        assert(columns * k == k * columns) by (nonlinear_arith);
    }
    a_row_of_the_legend(s, 0, columns, k);
    let n = in_row(s.len() as int, k * columns, columns);
    a_legend_entry_stays(s, k * columns, n, c);
    legend_ink_stays(s, k * columns, n, c);
    let one = s[i];
    let pct = percent(one.tokens as nat, scale_tokens(s));
    reveal_strlit(" ");
    reveal_strlit("%");
    let shown = right_in(dec(pct), 3);
    let pad = (shown.len() - dec(pct).len()) as int;
    assert(shown =~= crate::text::times(' ', pad) + dec(pct));
    crate::text::a_number_reads_back(pct);
    crate::text::marks_before_are_not_read(crate::text::times(' ', pad), dec(pct));
    crate::text::marks_before_are_not_read(" "@, shown);
    crate::text::only_digits_are_read(" "@ + shown, "%"@);
    if one.tokens < 0x400_0000_0000 {
        crate::figures::a_percentage_is_near(one.tokens as nat, scale_tokens(s));
    }
}

proof fn legend_ink_stays(s: Seq<SliceView>, from: int, n: int, c: int)
    requires
        0 <= from,
        0 <= c < n,
        from + n <= s.len(),
    ensures
        legend_row(s, from, n).spans.len() == 5 * n - 1,
        legend_row(s, from, n).spans[5 * c + 2].ink == s[from + c].ink,
    decreases n,
{
    if n > 1 {
        legend_ink_stays(s, from, n - 1, if c < n - 1 {
            c
        } else {
            0
        });
    } else {
        assert(legend_row(s, from, 0) == blank());
    }
}

/// The peak is the largest window there was: none is larger, and it was one of them.
pub proof fn the_peak_was_reached(points: Seq<CtxPoint>, least: u64, n: int, i: int)
    requires
        0 <= n <= points.len(),
    ensures
        0 <= i < n ==> points[i].window <= largest(points, least, n),
        least <= largest(points, least, n),
        largest(points, least, n) == least || exists|k: int|
            0 <= k < n && (#[trigger] points[k]).window == largest(points, least, n),
    decreases n,
{
    if n > 0 {
        the_peak_was_reached(points, least, n - 1, i);
        if largest(points, least, n) == points[n - 1].window {
            assert(points[n - 1].window == largest(points, least, n));
        }
    }
}

/// The heading of the chart counts the requests and the compactions, and has the peak.
pub proof fn the_chart_is_headed_by_its_peak(d: SessionData)
    ensures
        ({
            let spans = timeline_head(d).spans;
            let n = d.context_series@.len();
            &&& spans[1].text == dec(n) + " requests"@
            &&& spans[3].text == tokens_text(largest(d.context_series@, 0, n as int) as nat)
            &&& d.compactions == 0 ==> spans[4].text.len() == 0
            &&& d.compactions == 1 ==> spans[4].text == "   "@ + dec(1) + " compaction"@
            &&& d.compactions > 1 ==> spans[4].text == "   "@ + dec(d.compactions as nat) + " compaction"@ + "s"@
        }),
{
    reveal_strlit("");
    assert("   "@ + dec(1) + " compaction"@ + ""@ =~= "   "@ + dec(1) + " compaction"@);
}

/// What is said of how often a session is compacted is the time it ran shared out over
/// its compactions, of which there must have been three.
pub proof fn compactions_share_the_time(s: Session, compactions: u64, from: int, to: int, each: nat)
    requires
        ms_of(s.started_at@) == Some(from),
        ms_of(s.last_active@) == Some(to),
    ensures
        compactions >= 3 && each > 0 && from + each * compactions <= to < from + (each + 1) * compactions
            ==> thrash_lines(s, compactions).len() == 1 && thrash_lines(s, compactions)[0].spans[0].text
            == "↺ one compaction every "@ + span_text(each),
        compactions < 3 ==> thrash_lines(s, compactions).len() == 0,
        to <= from ==> thrash_lines(s, compactions).len() == 0,
{
    let c = compactions as int;
    if compactions >= 3 && each > 0 && from + each * compactions <= to < from + (each + 1) * compactions {
        let t = to - from;
        assert(t > 0) by (nonlinear_arith)
            requires
                t >= each * c,
                each > 0,
                c >= 3,
        ;
        assert(t == each * c + (t - each * c));
        assert(0 <= t - each * c < c) by (nonlinear_arith)
            requires
                each * c <= t,
                t < (each + 1) * c,
        ;
        assert(c * each == each * c) by (nonlinear_arith);
        vstd::arithmetic::div_mod::lemma_fundamental_div_mod_converse(t, c, each as int, t - each * c);
    }
    if compactions >= 3 {
        assert(0int / c == 0) by (nonlinear_arith)
            requires
                c >= 3,
        ;
    }
}

/// A slice gets the cells its tokens are worth, up to less than one either way.
pub proof fn a_share_is_within_a_cell(w: Seq<u64>, cells: nat, i: int)
    requires
        0 <= i < w.len(),
        weight_sum(w, w.len() as int) > 0,
    ensures
        ({
            let sum = weight_sum(w, w.len() as int);
            let share = share_of(w, cells, i);
            share * sum <= w[i] * cells + sum && w[i] * cells < share * sum + sum
        }),
{
    let sum = weight_sum(w, w.len() as int);
    let x = w[i] as int * cells as int;
    vstd::arithmetic::div_mod::lemma_fundamental_div_mod(x, sum as int);
    let (q, r) = (x / sum as int, x % sum as int);
    let share = share_of(w, cells, i);
    assert(share == q || share == q + 1);
    assert(share * sum <= x + sum && x < share * sum + sum) by (nonlinear_arith)
        requires
            x == sum * q + r,
            0 <= r < sum,
            share == q || share == q + 1,
    ;
}

/// The panel shows the window, the bar of it, what is in it, what of that was measured
/// and how it filled, in that order.
pub proof fn the_panel_is_in_order(
    s: Session,
    d: SessionData,
    b: ContextBreakdown,
    file: Seq<char>,
    width: int,
    chart: Seq<LineView>,
)
    ensures
        ({
            let all = context_lines(s, d, b, file, width, chart);
            let legend = legend_lines(slices_of(s, b), 0, legend_columns(width));
            let n = legend.len() as int;
            &&& all[0] == header_line(s, b)
            &&& all[2].spans == runs(
                marked_bar(slices_of(s, b), marked_cell(s, slices_of(s, b), b.superseded, width), bar_width(width)),
            )
            &&& all.subrange(4, 4 + n) == legend
            &&& all[4 + n] == blank()
        }),
{
    let all = context_lines(s, d, b, file, width, chart);
    let legend = legend_lines(slices_of(s, b), 0, legend_columns(width));
    let n = legend.len() as int;
    assert(all.subrange(4, 4 + n) =~= legend);
}

/// The mark on the bar is on the cell the threshold falls on, to the nearest cell, and
/// there is none once the window was compacted.
pub proof fn the_mark_is_at_the_threshold(s: Session, slices: Seq<SliceView>, superseded: bool, width: int, c: int)
    requires
        width >= 0,
        s.context is Some,
        s.context->0.compact_at * width < 0x400_0000_0000,
    ensures
        superseded ==> marked_cell(s, slices, superseded, width) is None,
        marked_cell(s, slices, superseded, width) == Some(c) ==> {
            let scale = tokens_in(slices, slices.len() as int);
            let at = s.context->0.compact_at * width;
            &&& 0 < c < width
            &&& 2 * (c * scale - at) <= scale
            &&& 2 * (at - c * scale) <= scale
        },
{
    let scale = tokens_in(slices, slices.len() as int);
    let (n, w) = (s.context->0.compact_at as nat, width as nat);
    if scale > 0 {
        crate::figures::a_share_is_near(n, scale, w);
        let at = (n * w) as int;
        assert(6 * n * w == 6 * at) by (nonlinear_arith)
            requires
                at == n * w,
        ;
    }
}

proof fn a_slice_keeps_its_cells(s: Seq<SliceView>, cells: nat, n: int, k: int, i: int)
    requires
        0 <= k < n <= s.len(),
        0 <= i < share_of(weights_of(s), cells, k),
    ensures
        bar_cells(s, cells, k).len() + i < bar_cells(s, cells, n).len(),
        bar_cells(s, cells, n)[bar_cells(s, cells, k).len() + i] == (s[k].fill, s[k].ink),
    decreases n,
{
    if k < n - 1 {
        a_slice_keeps_its_cells(s, cells, n - 1, k, i);
    }
}

/// The cells of a slice are of its own fill and colour, one slice behind the other.
pub proof fn a_slice_is_drawn_in_its_colour(s: Seq<SliceView>, cells: nat, k: int, i: int)
    requires
        0 <= k < s.len(),
        0 <= i < share_of(weights_of(s), cells, k),
    ensures
        bar_cells(s, cells, s.len() as int)[bar_cells(s, cells, k).len() + i] == (s[k].fill, s[k].ink),
        bar_cells(s, cells, k + 1).len() == bar_cells(s, cells, k).len() + share_of(weights_of(s), cells, k),
{
    a_slice_keeps_its_cells(s, cells, s.len() as int, k, i);
}

/// How the window filled is shown once there are three requests to show and columns to
/// show them in, under its heading.
pub proof fn a_chart_is_shown_where_there_is_one(s: Session, d: SessionData, width: int, chart: Seq<LineView>)
    ensures
        d.context_series@.len() < 3 || width < 24 ==> timeline_lines(s, d, width, chart).len() == 0,
        d.context_series@.len() >= 3 && width >= 24 ==> timeline_lines(s, d, width, chart)[1] == timeline_head(d)
            && timeline_lines(s, d, width, chart).subrange(2, 2 + chart.len() as int) == chart,
{
    if d.context_series@.len() >= 3 && width >= 24 {
        assert(timeline_lines(s, d, width, chart).subrange(2, 2 + chart.len() as int) =~= chart);
    }
}

} // verus!
